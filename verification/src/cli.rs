//! The command line: subcommands, the options of `run`, and what they set up.

use vstd::prelude::*;
use crate::addr::{ipv4_text, Ipv4Addr};
use crate::afxdp::{Mode, RunOpts, XdpMode};
use crate::control::{empty_fabric, Fabric, Network, Vpc};
use crate::ethernet;
use crate::ethernet::{eth_header, ethertype, MacAddr, ETH_HDR_LEN};
use crate::ipv4;
use crate::ipv4::{full_header, IPV4_MIN_HDR_LEN};
use crate::pipeline::state::PipelineState;
use crate::pipeline::{no_stats, Pipeline, PipelineConfig};
use crate::text::{chars_of, decimal, parse_uint, push_decimal, same_text, uint_text};
use crate::translate::state::{fresh_engine, NatState};
use crate::translate::NatEngine;
use crate::udp;
use crate::udp::{udp_checksum, udp_header, UDP_HDR_LEN};
use crate::wire::{be16_bytes, put_be16, put_bytes, splice};

verus! {

broadcast use crate::wire::group_field_lengths;

/// What the program is asked to do.
#[derive(Clone, Copy, Debug, PartialEq, Eq, Structural)]
pub enum Command {
    SelfTest,
    Run,
    Version,
    Help,
    Unknown,
}

/// The command that the first argument names; the version where there is none.
pub open spec fn command_named(name: Option<Seq<char>>) -> Command {
    match name {
        None => Command::Version,
        Some(s) => if s == "selftest"@ {
            Command::SelfTest
        } else if s == "run"@ {
            Command::Run
        } else if s == "version"@ || s == "--version"@ {
            Command::Version
        } else if s == "help"@ || s == "--help"@ || s == "-h"@ {
            Command::Help
        } else {
            Command::Unknown
        },
    }
}

/// Which command the first argument names.
#[must_use]
pub fn command(name: Option<&str>) -> (r: Command)
    ensures
        r == command_named(
            match name {
                Some(s) => Some(s@),
                None => None,
            },
        ),
{
    match name {
        None => Command::Version,
        Some(s) => if same_text(s, "selftest") {
            Command::SelfTest
        } else if same_text(s, "run") {
            Command::Run
        } else if same_text(s, "version") || same_text(s, "--version") {
            Command::Version
        } else if same_text(s, "help") || same_text(s, "--help") || same_text(s, "-h") {
            Command::Help
        } else {
            Command::Unknown
        },
    }
}

/// The settings of `run`.
#[derive(Clone, Copy, Debug)]
pub struct RunSettings {
    pub queue: u32,
    pub mode: Mode,
    pub vni: u32,
    pub local_node: Ipv4Addr,
    pub peer_node: Ipv4Addr,
    pub nat_ip: Option<Ipv4Addr>,
    pub max_packets: Option<u64>,
    pub max_secs: Option<u64>,
    pub batch: u32,
    pub xdp_mode: XdpMode,
}

/// The settings where no option is given.
pub open spec fn default_settings() -> RunSettings {
    RunSettings {
        queue: 0,
        mode: Mode::Dump,
        vni: 100,
        local_node: Ipv4Addr { bits: 0xc0a8_0101 },
        peer_node: Ipv4Addr { bits: 0xc0a8_0102 },
        nat_ip: None,
        max_packets: None,
        max_secs: None,
        batch: 64,
        xdp_mode: XdpMode::Auto,
    }
}

impl Default for RunSettings {
    /// Queue 0, dump mode, VNI 100, from 192.168.1.1 toward 192.168.1.2.
    fn default() -> (r: Self)
        ensures
            r == default_settings(),
    {
        RunSettings {
            queue: 0,
            mode: Mode::Dump,
            vni: 100,
            local_node: Ipv4Addr { bits: 0xc0a8_0101 },
            peer_node: Ipv4Addr { bits: 0xc0a8_0102 },
            nat_ip: None,
            max_packets: None,
            max_secs: None,
            batch: 64,
            xdp_mode: XdpMode::Auto,
        }
    }
}

/// The options of `run`.
#[derive(Clone, Copy, Debug, PartialEq, Eq, Structural)]
pub enum Flag {
    Queue,
    Mode,
    Vni,
    LocalNode,
    PeerNode,
    NatIp,
    Count,
    Secs,
    Batch,
    Skb,
    Drv,
}

/// The option that `s` names.
pub open spec fn flag_named(s: Seq<char>) -> Option<Flag> {
    if s == "--queue"@ {
        Some(Flag::Queue)
    } else if s == "--mode"@ {
        Some(Flag::Mode)
    } else if s == "--vni"@ {
        Some(Flag::Vni)
    } else if s == "--local-node"@ {
        Some(Flag::LocalNode)
    } else if s == "--peer-node"@ {
        Some(Flag::PeerNode)
    } else if s == "--nat-ip"@ {
        Some(Flag::NatIp)
    } else if s == "--count"@ {
        Some(Flag::Count)
    } else if s == "--secs"@ {
        Some(Flag::Secs)
    } else if s == "--batch"@ {
        Some(Flag::Batch)
    } else if s == "--skb"@ {
        Some(Flag::Skb)
    } else if s == "--drv"@ {
        Some(Flag::Drv)
    } else {
        None
    }
}

fn read_flag(s: &str) -> (r: Option<Flag>)
    ensures
        r == flag_named(s@),
{
    if same_text(s, "--queue") {
        Some(Flag::Queue)
    } else if same_text(s, "--mode") {
        Some(Flag::Mode)
    } else if same_text(s, "--vni") {
        Some(Flag::Vni)
    } else if same_text(s, "--local-node") {
        Some(Flag::LocalNode)
    } else if same_text(s, "--peer-node") {
        Some(Flag::PeerNode)
    } else if same_text(s, "--nat-ip") {
        Some(Flag::NatIp)
    } else if same_text(s, "--count") {
        Some(Flag::Count)
    } else if same_text(s, "--secs") {
        Some(Flag::Secs)
    } else if same_text(s, "--batch") {
        Some(Flag::Batch)
    } else if same_text(s, "--skb") {
        Some(Flag::Skb)
    } else if same_text(s, "--drv") {
        Some(Flag::Drv)
    } else {
        None
    }
}

/// The settings after an option that stands alone; `None` if it takes a value.
pub open spec fn with_switch(s: RunSettings, flag: Flag) -> Option<RunSettings> {
    match flag {
        Flag::Skb => Some(RunSettings { xdp_mode: XdpMode::Skb, ..s }),
        Flag::Drv => Some(RunSettings { xdp_mode: XdpMode::Drv, ..s }),
        _ => None,
    }
}

/// The mode that `s` names.
pub open spec fn mode_named(s: Seq<char>) -> Option<Mode> {
    if s == "dump"@ {
        Some(Mode::Dump)
    } else if s == "encap"@ {
        Some(Mode::Encap)
    } else if s == "decap"@ {
        Some(Mode::Decap)
    } else {
        None
    }
}

/// The settings after an option with the value `v`; `None` if the value is no good.
pub open spec fn with_value(s: RunSettings, flag: Flag, v: Seq<char>) -> Option<RunSettings> {
    let short = uint_text(v, 10, u32::MAX as nat);
    let long = uint_text(v, 10, u64::MAX as nat);
    match flag {
        Flag::Queue if short is Some => Some(
            RunSettings { queue: short.unwrap() as u32, ..s },
        ),
        Flag::Mode if mode_named(v) is Some => Some(
            RunSettings { mode: mode_named(v).unwrap(), ..s },
        ),
        Flag::Vni if short is Some => Some(RunSettings { vni: short.unwrap() as u32, ..s }),
        Flag::LocalNode if ipv4_text(v) is Some => Some(
            RunSettings { local_node: ipv4_text(v).unwrap(), ..s },
        ),
        Flag::PeerNode if ipv4_text(v) is Some => Some(
            RunSettings { peer_node: ipv4_text(v).unwrap(), ..s },
        ),
        Flag::NatIp if ipv4_text(v) is Some => Some(RunSettings { nat_ip: ipv4_text(v), ..s }),
        Flag::Count if long is Some => Some(
            RunSettings { max_packets: Some(long.unwrap() as u64), ..s },
        ),
        Flag::Secs if long is Some => Some(
            RunSettings { max_secs: Some(long.unwrap() as u64), ..s },
        ),
        Flag::Batch if short is Some => Some(RunSettings { batch: short.unwrap() as u32, ..s }),
        _ => None,
    }
}

fn read_number(v: &str, max: u64) -> (r: Option<u64>)
    ensures
        match r {
            Some(n) => uint_text(v@, 10, max as nat) == Some(n as nat),
            None => uint_text(v@, 10, max as nat) is None,
        },
{
    let chars: Vec<char> = chars_of(v);
    parse_uint(chars.as_slice(), 10, max)
}

/// Reads the value `v` of an option.
fn read_value(s: RunSettings, flag: Flag, v: &str) -> (r: Option<RunSettings>)
    ensures
        r == with_value(s, flag, v@),
{
    let mut s: RunSettings = s;
    match flag {
        Flag::Mode => {
            s.mode = if same_text(v, "dump") {
                Mode::Dump
            } else if same_text(v, "encap") {
                Mode::Encap
            } else if same_text(v, "decap") {
                Mode::Decap
            } else {
                return None;
            };
        },
        Flag::LocalNode | Flag::PeerNode | Flag::NatIp => match Ipv4Addr::from_text(v) {
            Ok(ip) => match flag {
                Flag::LocalNode => {
                    s.local_node = ip;
                },
                Flag::PeerNode => {
                    s.peer_node = ip;
                },
                _ => {
                    s.nat_ip = Some(ip);
                },
            },
            Err(_) => {
                return None;
            },
        },
        Flag::Count | Flag::Secs => match read_number(v, u64::MAX) {
            Some(n) => if flag == Flag::Count {
                s.max_packets = Some(n);
            } else {
                s.max_secs = Some(n);
            },
            None => {
                return None;
            },
        },
        Flag::Queue | Flag::Vni | Flag::Batch => match read_number(v, u32::MAX as u64) {
            Some(n) => match flag {
                Flag::Queue => {
                    s.queue = n as u32;
                },
                Flag::Vni => {
                    s.vni = n as u32;
                },
                _ => {
                    s.batch = n as u32;
                },
            },
            None => {
                return None;
            },
        },
        Flag::Skb | Flag::Drv => {
            return None;
        },
    }
    Some(s)
}

/// What is wrong with the arguments of `run`. Each variant holds the arguments that it
/// is about by their position.
#[derive(Clone, Copy, Debug, PartialEq, Eq, Structural)]
pub enum ArgError {
    /// No interface is named first.
    NoInterface,
    /// There is no such option.
    UnknownOption(usize),
    /// The option is the last argument and lacks its value.
    MissingValue(usize),
    /// The value after the option is no good.
    BadValue(usize),
}

/// What the options from position `i` on make of the settings `s`.
pub open spec fn options_from(args: Seq<String>, i: int, s: RunSettings) -> Result<
    RunSettings,
    ArgError,
>
    decreases args.len() - i,
{
    if i < 0 || i >= args.len() {
        Ok(s)
    } else {
        match flag_named(args[i]@) {
            None => Err(ArgError::UnknownOption(i as usize)),
            Some(flag) => match with_switch(s, flag) {
                Some(after) => options_from(args, i + 1, after),
                None => if i + 1 >= args.len() {
                    Err(ArgError::MissingValue(i as usize))
                } else {
                    match with_value(s, flag, args[i + 1]@) {
                        Some(after) => options_from(args, i + 2, after),
                        None => Err(ArgError::BadValue(i as usize)),
                    }
                },
            },
        }
    }
}

/// Whether `s` starts like an option.
pub open spec fn is_dashed(s: Seq<char>) -> bool {
    s.len() >= 2 && s[0] == '-' && s[1] == '-'
}

/// Reads the arguments of `run`: the interface, which stays the first argument, and then
/// the options.
pub fn parse_run(args: &Vec<String>) -> (r: Result<RunSettings, ArgError>)
    ensures
        r == if args@.len() == 0 || is_dashed(args@[0]@) {
            Err(ArgError::NoInterface)
        } else {
            options_from(args@, 1, default_settings())
        },
{
    let n: usize = args.len();
    if n == 0 {
        return Err(ArgError::NoInterface);
    }
    let first: Vec<char> = chars_of(args[0].as_str());
    if first.len() >= 2 && first[0] == '-' && first[1] == '-' {
        return Err(ArgError::NoInterface);
    }
    let mut s: RunSettings = RunSettings::default();
    let mut i: usize = 1;
    while i < n
        invariant
            n == args@.len(),
            1 <= i <= n,
            !is_dashed(args@[0]@),
            options_from(args@, 1, default_settings()) == options_from(args@, i as int, s),
        decreases n - i,
    {
        let flag: Flag = match read_flag(args[i].as_str()) {
            Some(f) => f,
            None => {
                return Err(ArgError::UnknownOption(i));
            },
        };
        match flag {
            Flag::Skb => {
                s.xdp_mode = XdpMode::Skb;
                i = i + 1;
            },
            Flag::Drv => {
                s.xdp_mode = XdpMode::Drv;
                i = i + 1;
            },
            _ => {
                if n - i < 2 {
                    return Err(ArgError::MissingValue(i));
                }
                match read_value(s, flag, args[i + 1].as_str()) {
                    Some(after) => {
                        s = after;
                    },
                    None => {
                        return Err(ArgError::BadValue(i));
                    },
                }
                i = i + 2;
            },
        }
    }
    Ok(s)
}

impl RunSettings {
    /// The NAT engine of a forwarder: it shows flows as the NAT address, or where there is
    /// none as the node.
    pub open spec fn engine(self) -> NatState {
        fresh_engine(
            match self.nat_ip {
                Some(ip) => ip,
                None => self.local_node,
            },
            20000,
            60000,
        )
    }

    /// The controls of the loop.
    #[must_use]
    pub fn opts(&self) -> (r: RunOpts)
        ensures
            r == (RunOpts {
                mode: self.mode,
                max_packets: self.max_packets,
                max_secs: self.max_secs,
                batch: self.batch,
            }),
    {
        RunOpts {
            mode: self.mode,
            max_packets: self.max_packets,
            max_secs: self.max_secs,
            batch: self.batch,
        }
    }

    /// Build the pipeline: no endpoints, so every inner IPv4 packet is encapsulated
    /// toward the peer node (default route); NAT applied on egress if there is a NAT
    /// address.
    #[must_use]
    pub fn pipeline(&self) -> (r: Pipeline)
        ensures
            r.wf(),
            r@ == (PipelineState {
                cfg: r@.cfg,
                fabric: empty_fabric(self.local_node).with_vpc(
                    Network {
                        vni: self.vni,
                        name: "vpc-"@ + decimal(self.vni as nat),
                        cidr: (Ipv4Addr { bits: 0 }, 0),
                    },
                ),
                engine: self.engine(),
                ip_id: 0,
                stats: no_stats(),
            }),
            r@.cfg.local_node_ip == self.local_node,
            r@.cfg.outer_src_mac@ == seq![2u8, 0u8, 0u8, 0u8, 0xa1u8, 1u8],
            r@.cfg.outer_dst_mac@ == seq![2u8, 0u8, 0u8, 0u8, 0xa1u8, 2u8],
            r@.cfg.vni == self.vni,
            r@.cfg.nat_ip == self.nat_ip,
            r@.cfg.gateway_node_ip == Some(self.peer_node),
            r@.cfg.virtual_gateway_mac@ == seq![2u8, 0u8, 0u8, 0u8, 0u8, 0xffu8],
            r@.cfg.outer_udp_checksum == false,
    {
        let mut fabric: Fabric = Fabric::new(self.local_node);
        let mut name: String = String::new();
        name.append("vpc-");
        push_decimal(&mut name, self.vni as u64);
        assert(name@ =~= "vpc-"@ + decimal(self.vni as nat));
        fabric.add_vpc(Vpc { vni: self.vni, name, cidr: (Ipv4Addr { bits: 0 }, 0) });
        let cfg: PipelineConfig = PipelineConfig {
            local_node_ip: self.local_node,
            outer_src_mac: MacAddr([0x02, 0, 0, 0, 0xa1, 0x01]),
            outer_dst_mac: MacAddr([0x02, 0, 0, 0, 0xa1, 0x02]),
            vni: self.vni,
            nat_ip: self.nat_ip,
            gateway_node_ip: Some(self.peer_node),
            virtual_gateway_mac: MacAddr([0x02, 0, 0, 0, 0, 0xff]),
            outer_udp_checksum: false,
        };
        assert(cfg.outer_src_mac@ =~= seq![2u8, 0u8, 0u8, 0u8, 0xa1u8, 1u8]);
        assert(cfg.outer_dst_mac@ =~= seq![2u8, 0u8, 0u8, 0u8, 0xa1u8, 2u8]);
        assert(cfg.virtual_gateway_mac@ =~= seq![2u8, 0u8, 0u8, 0u8, 0u8, 0xffu8]);
        let nat_ip: Ipv4Addr = match self.nat_ip {
            Some(ip) => ip,
            None => self.local_node,
        };
        Pipeline::new(cfg, fabric, NatEngine::new(nat_ip, 20000, 60000))
    }
}

/// A UDP datagram with its checksum.
pub open spec fn datagram(
    src: Ipv4Addr,
    dst: Ipv4Addr,
    src_port: u16,
    dst_port: u16,
    payload: Seq<u8>,
) -> Seq<u8> {
    let bare = udp_header(src_port, dst_port, payload.len() as u16) + payload;
    splice(bare, 6, be16_bytes(udp_checksum(src, dst, bare)))
}

/// A frame from `02:00:00:00:00:0a` to `02:00:00:00:00:0b` with a UDP datagram from
/// `src`:40000 to `dst`:4242.
pub open spec fn demo_bytes(src: Ipv4Addr, dst: Ipv4Addr, payload: Seq<u8>) -> Seq<u8> {
    eth_header(
        seq![2u8, 0u8, 0u8, 0u8, 0u8, 0x0bu8],
        seq![2u8, 0u8, 0u8, 0u8, 0u8, 0x0au8],
        ethertype::IPV4,
    ) + full_header(
        src,
        dst,
        ipv4::proto::UDP,
        64,
        1,
        true,
        (UDP_HDR_LEN + payload.len()) as u16,
    ) + datagram(src, dst, 40000, 4242, payload)
}

/// Builds a tenant frame around `payload` to try the pipeline on.
#[must_use]
pub fn demo_frame(src: Ipv4Addr, dst: Ipv4Addr, payload: &[u8]) -> (r: Vec<u8>)
    requires
        payload@.len() <= 0xffff - 28,
    ensures
        r@ == demo_bytes(src, dst, payload@),
{
    let n: usize = payload.len();
    let mut dg: Vec<u8> = vec![0u8; UDP_HDR_LEN + n];
    udp::write_header(dg.as_mut_slice(), 40000, 4242, n as u16);
    put_bytes(dg.as_mut_slice(), UDP_HDR_LEN, payload);
    let ghost bare = udp_header(40000, 4242, n as u16) + payload@;
    assert(dg@ =~= bare);
    let c: u16 = udp::compute_checksum(src, dst, dg.as_slice());
    put_be16(dg.as_mut_slice(), 6, c);
    assert(dg@ == datagram(src, dst, 40000, 4242, payload@));

    let mut ip: Vec<u8> = vec![0u8; IPV4_MIN_HDR_LEN + UDP_HDR_LEN + n];
    let ghost full = full_header(src, dst, ipv4::proto::UDP, 64, 1, true, (UDP_HDR_LEN + n) as u16);
    ipv4::write_header(
        ip.as_mut_slice(),
        src,
        dst,
        ipv4::proto::UDP,
        64,
        1,
        true,
        (UDP_HDR_LEN + n) as u16,
    );
    put_bytes(ip.as_mut_slice(), IPV4_MIN_HDR_LEN, dg.as_slice());
    assert(full.len() == 20);
    assert(ip@ =~= full + dg@);

    let mut frame: Vec<u8> = vec![0u8; ETH_HDR_LEN + IPV4_MIN_HDR_LEN + UDP_HDR_LEN + n];
    let to: MacAddr = MacAddr([0x02, 0, 0, 0, 0, 0x0b]);
    let from: MacAddr = MacAddr([0x02, 0, 0, 0, 0, 0x0a]);
    assert(to@ =~= seq![2u8, 0u8, 0u8, 0u8, 0u8, 0x0bu8]);
    assert(from@ =~= seq![2u8, 0u8, 0u8, 0u8, 0u8, 0x0au8]);
    ethernet::write_header(frame.as_mut_slice(), to, from, ethertype::IPV4);
    put_bytes(frame.as_mut_slice(), ETH_HDR_LEN, ip.as_slice());
    assert(frame@ =~= demo_bytes(src, dst, payload@));
    frame
}

} // verus!
