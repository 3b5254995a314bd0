//! The per-packet forwarding pipeline, independent of the AF_XDP socket layer.
//!
//! Two entry points mirror the two directions a virtual switch sees:
//!
//! * [`Pipeline::on_tenant_frame`] — a raw inner Ethernet frame arrived from a
//!   tenant port. Resolve its destination in the fabric, optionally SNAT it (if it
//!   is leaving the VPC toward a gateway), Andromeda-encapsulate it, and hand back
//!   the bytes to transmit on the underlay port.
//! * [`Pipeline::on_underlay_frame`] — an encapsulated frame arrived from the
//!   underlay. Decapsulate it, optionally reverse-NAT the inner packet, and hand
//!   back the inner frame to deliver to the tenant port.
//!
//! Everything operates on caller-provided buffers. What the entry points do is stated
//! over [`PipelineState`](state::PipelineState), the mathematical state of a pipeline.

use vstd::prelude::*;
use crate::addr::Ipv4Addr;
use crate::arp;
use crate::arp::{arp_error, law_reply_answers_request, reply_frame, ArpView};
use crate::control::{Endpoint, Fabric, Vpc};
use crate::ethernet::{ethertype, put_mac, EthFrame, MacAddr, ETH_HDR_LEN};
use crate::five_tuple_of;
use crate::ipv4::{ipv4_error, proto, Ipv4View};
use crate::overlay;
use crate::overlay::{
    encap_fits, law_overlay_length, overlay_frame, parcel_of, EncapParams, OVERLAY_OVERHEAD,
};
use crate::pipeline::laws::lemma_sent_len;
use crate::pipeline::state::{
    counted, flow_of, inner_at, translated, Batch, Outcome, PipelineState,
};
use crate::tcp::TcpView;
use crate::translate::rewrite::law_apply_keeps_length;
use crate::translate::state::{cutoff_at, NatState};
use crate::translate::{apply as nat_apply, Direction, DnatRule, NatEngine, Rewrite};
use crate::udp::UdpView;
use crate::wire::{put_bytes, skip, splice, tail};

pub mod laws;
pub mod state;

verus! {

/// Static configuration for one switch instance (single-VPC MVP; multi-VPC is a
/// map keyed by ingress port in a later iteration).
#[derive(Clone, Copy, Debug)]
pub struct PipelineConfig {
    /// This switch's underlay address (outer source IP for encapsulated packets).
    pub local_node_ip: Ipv4Addr,
    /// Outer source MAC (this switch's underlay NIC).
    pub outer_src_mac: MacAddr,
    /// Outer destination MAC (the underlay next hop — a gateway/peer L2 address).
    pub outer_dst_mac: MacAddr,
    /// The VNI this switch serves.
    pub vni: u32,
    /// If set, flows leaving the VPC are SNAT'd to this address.
    pub nat_ip: Option<Ipv4Addr>,
    /// If set, destinations with no in-VPC endpoint are sent here (default route).
    pub gateway_node_ip: Option<Ipv4Addr>,
    /// The virtual MAC this switch answers tenant ARP requests with (distributed
    /// overlay gateway). Tenants send to this MAC; the switch rewrites the inner
    /// destination MAC to the real endpoint during encapsulation.
    pub virtual_gateway_mac: MacAddr,
    /// Compute the outer UDP checksum on encapsulation. Default `false` (transmit 0,
    /// legal for IPv4 tunnels per RFC 6935 and standard for VXLAN) keeps the hot path
    /// off a full pass over the payload. Set `true` for strict outer integrity.
    pub outer_udp_checksum: bool,
}

/// The outcome of feeding one frame to the pipeline.
#[derive(Clone, Copy, Debug, PartialEq, Eq)]
pub enum Decision {
    /// Transmit the first `usize` bytes of the output buffer on the *egress* port.
    Forward(usize),
    /// Transmit the first `usize` bytes of the output buffer back out the *ingress*
    /// port (used for ARP replies to the tenant).
    Reply(usize),
    /// Drop the frame; the reason is a static label for stats/logging.
    Drop(&'static str),
    /// Not ours — let the caller decide (e.g. hand back to the kernel).
    Pass,
}

/// What the pipeline has done so far. The counters wrap.
#[derive(Clone, Copy, Debug)]
pub struct PipelineStats {
    pub encapped: u64,
    pub decapped: u64,
    pub natted: u64,
    pub arp_replied: u64,
    pub dropped: u64,
    pub passed: u64,
}

/// Counters at their start.
pub open spec fn no_stats() -> PipelineStats {
    PipelineStats { encapped: 0, decapped: 0, natted: 0, arp_replied: 0, dropped: 0, passed: 0 }
}

impl Default for PipelineStats {
    fn default() -> (r: Self)
        ensures
            r == no_stats(),
    {
        PipelineStats { encapped: 0, decapped: 0, natted: 0, arp_replied: 0, dropped: 0, passed: 0 }
    }
}

/// A frame in a larger buffer: the inner frame of `inner_len` bytes stands
/// `OVERLAY_OVERHEAD` bytes after `offset`.
#[derive(Clone, Copy, Debug)]
pub struct FrameSlot {
    pub offset: usize,
    pub inner_len: usize,
}

/// Where an encapsulated frame goes, and what is done to it on the way.
#[derive(Clone, Copy, Debug)]
pub struct Hop {
    /// The underlay node.
    pub node: Ipv4Addr,
    /// The MAC address that the inner destination becomes, if it is known.
    pub mac: Option<MacAddr>,
    /// Whether the flow leaves the VPC and is translated.
    pub snat: bool,
}

/// What to do with a tenant frame.
#[derive(Clone, Copy, Debug)]
pub enum Step {
    /// Drop it, for the reason given.
    Drop(&'static str),
    /// Answer the ARP request in it.
    Answer,
    /// Encapsulate it.
    Encap(Hop),
}

/// Compute the 16-bit ECMP flow hash from a parsed inner IPv4 header (0 if the L4
/// protocol has no ports, e.g. ICMP).
#[must_use]
pub fn flow_hash_of(ip: &Ipv4View) -> (r: u16)
    ensures
        r == flow_of(ip@),
{
    let p: u8 = ip.protocol();
    if p == proto::TCP {
        match TcpView::parse(ip.payload()) {
            Ok(t) => overlay::flow_hash(ip.src(), ip.dst(), p, t.src_port(), t.dst_port()),
            Err(_) => 0,
        }
    } else if p == proto::UDP {
        match UdpView::parse(ip.payload()) {
            Ok(u) => overlay::flow_hash(ip.src(), ip.dst(), p, u.src_port(), u.dst_port()),
            Err(_) => 0,
        }
    } else {
        0
    }
}

/// Translates the packet in `buf[from..to]`. Returns whether it was rewritten.
#[verifier::rlimit(40)]
fn translate_range(
    engine: &mut NatEngine,
    buf: &mut [u8],
    from: usize,
    to: usize,
    direction: Direction,
    now: u64,
) -> (r: bool)
    requires
        old(engine).wf(),
        from <= to <= old(buf)@.len(),
    ensures
        final(engine).wf(),
        ({
            let (after, packet, natted) = translated(
                old(engine)@,
                old(buf)@.subrange(from as int, to as int),
                direction,
                now,
            );
            &&& final(engine)@ == after
            &&& final(buf)@ == splice(old(buf)@, from as int, packet)
            &&& packet.len() == to - from
            &&& r == natted
        }),
{
    let ghost packet = buf@.subrange(from as int, to as int);
    match five_tuple_of(&buf[from..to]) {
        Some(t) => {
            let rw: Rewrite = engine.process(t, direction, now);
            proof {
                law_apply_keeps_length(packet, rw);
            }
            if rw.is_noop() {
                assert(buf@ =~= splice(old(buf)@, from as int, packet));
                return false;
            }
            let (_, rest) = buf.split_at_mut(from);
            let (range, _) = rest.split_at_mut(to - from);
            assert(range@ =~= packet);
            let _ = nat_apply(range, &rw);
            true
        },
        None => {
            assert(buf@ =~= splice(old(buf)@, from as int, packet));
            false
        },
    }
}

/// The forwarding engine: fabric map + NAT + config.
pub struct Pipeline {
    cfg: PipelineConfig,
    pub fabric: Fabric,
    pub nat: NatEngine,
    ip_id: u16,
    stats: PipelineStats,
}

impl View for Pipeline {
    type V = PipelineState;

    closed spec fn view(&self) -> PipelineState {
        PipelineState {
            cfg: self.cfg,
            fabric: self.fabric@,
            engine: self.nat@,
            ip_id: self.ip_id,
            stats: self.stats,
        }
    }
}

impl Pipeline {
    pub closed spec fn wf(&self) -> bool {
        self.fabric.wf() && self.nat.wf()
    }

    #[must_use]
    pub fn new(cfg: PipelineConfig, fabric: Fabric, engine: NatEngine) -> (r: Self)
        requires
            fabric.wf(),
            engine.wf(),
        ensures
            r.wf(),
            r@ == (PipelineState {
                cfg,
                fabric: fabric@,
                engine: engine@,
                ip_id: 0,
                stats: no_stats(),
            }),
    {
        Pipeline { cfg, fabric, nat: engine, ip_id: 0, stats: PipelineStats::default() }
    }

    #[must_use]
    pub fn stats(&self) -> (r: PipelineStats)
        ensures
            r == self@.stats,
    {
        self.stats
    }

    #[must_use]
    pub fn config(&self) -> (r: &PipelineConfig)
        ensures
            *r == self@.cfg,
    {
        &self.cfg
    }

    /// Adds a port-forward rule to the NAT.
    pub fn add_dnat_rule(&mut self, rule: DnatRule)
        requires
            old(self).wf(),
        ensures
            final(self).wf(),
            final(self)@ == (PipelineState {
                engine: NatState {
                    rules: old(self)@.engine.rules.push(rule),
                    ..old(self)@.engine
                },
                ..old(self)@
            }),
    {
        self.nat.add_dnat_rule(rule);
    }

    /// Adds a virtual network to the fabric.
    pub fn add_vpc(&mut self, vpc: Vpc)
        requires
            old(self).wf(),
        ensures
            final(self).wf(),
            final(self)@ == (PipelineState {
                fabric: old(self)@.fabric.with_vpc(vpc@),
                ..old(self)@
            }),
    {
        self.fabric.add_vpc(vpc);
    }

    /// Adds an endpoint to the fabric.
    pub fn add_endpoint(&mut self, ep: Endpoint)
        requires
            old(self).wf(),
        ensures
            final(self).wf(),
            final(self)@ == (PipelineState {
                fabric: old(self)@.fabric.with_endpoint(ep),
                ..old(self)@
            }),
    {
        self.fabric.add_endpoint(ep);
    }

    fn next_ip_id(&mut self) -> (r: u16)
        requires
            old(self).wf(),
        ensures
            final(self).wf(),
            r == old(self)@.ip_id.wrapping_add(1),
            final(self)@ == (PipelineState { ip_id: r, ..old(self)@ }),
    {
        self.ip_id = self.ip_id.wrapping_add(1);
        self.ip_id
    }

    fn drop_frame(&mut self, why: &'static str) -> (r: Decision)
        requires
            old(self).wf(),
        ensures
            final(self).wf(),
            final(self)@ == old(self)@.dropping(why, Seq::empty()).state,
            r == Decision::Drop(why),
    {
        self.stats.dropped = self.stats.dropped.wrapping_add(1);
        Decision::Drop(why)
    }

    /// What to do with a tenant frame.
    fn tenant_step(&self, inner: &[u8], vni: u32) -> (r: Step)
        ensures
            r == self@.step(inner@, vni),
    {
        let eth: EthFrame = match EthFrame::parse(inner) {
            Ok(e) => e,
            Err(_) => {
                return Step::Drop("bad-inner-eth");
            },
        };
        let ethertype: u16 = eth.ethertype();
        // Proxy-ARP: answer tenant "who has X?" with the virtual gateway MAC so the
        // tenant can send without knowing the far endpoint's real L2 address.
        if ethertype == ethertype::ARP {
            return match ArpView::parse(eth.payload()) {
                Ok(a) => if a.is_request() && a.target_ip() != a.sender_ip() {
                    Step::Answer
                } else {
                    Step::Drop("arp-ignored")
                },
                Err(_) => Step::Drop("arp-ignored"),
            };
        }
        if ethertype != ethertype::IPV4 {
            return Step::Drop("non-ipv4-inner");
        }
        let ip: Ipv4View = match Ipv4View::parse(eth.payload()) {
            Ok(ip) => ip,
            Err(_) => {
                return Step::Drop("bad-inner-ip");
            },
        };
        // Decide next hop: in-VPC endpoint, or default route to the gateway.
        match self.fabric.resolve(vni, ip.dst()) {
            Some(nh) => Step::Encap(
                Hop { node: nh.node_ip, mac: Some(nh.inner_mac), snat: false },
            ),
            None => match self.cfg.gateway_node_ip {
                Some(gw) => Step::Encap(
                    Hop { node: gw, mac: None, snat: self.cfg.nat_ip.is_some() },
                ),
                None => Step::Drop("no-route"),
            },
        }
    }

    /// Answers the ARP request `request`.
    fn answer(&mut self, request: &[u8], out: &mut [u8]) -> (r: Decision)
        requires
            old(self).wf(),
            arp_error(request@) is None,
        ensures
            final(self).wf(),
            (Outcome { state: final(self)@, out: final(out)@, decision: r }) == old(self)@.answering(
                request@,
                old(out)@,
            ),
    {
        match arp::write_reply(out, request, self.cfg.virtual_gateway_mac) {
            Ok(n) => {
                self.stats.arp_replied = self.stats.arp_replied.wrapping_add(1);
                Decision::Reply(n)
            },
            Err(_) => self.drop_frame("arp-build"),
        }
    }

    /// Answers the ARP request in the frame that stands at `OVERLAY_OVERHEAD` in `buf`.
    fn answer_in_place(&mut self, buf: &mut [u8], inner_len: usize) -> (r: Decision)
        requires
            old(self).wf(),
            encap_fits(old(buf)@.len(), inner_len as nat),
            inner_len >= ETH_HDR_LEN,
            arp_error(tail(inner_at(old(buf)@, inner_len as nat), ETH_HDR_LEN as int)) is None,
        ensures
            final(self).wf(),
            (Outcome { state: final(self)@, out: final(buf)@, decision: r }) == old(self)@.answering(
                tail(inner_at(old(buf)@, inner_len as nat), ETH_HDR_LEN as int),
                old(buf)@,
            ),
    {
        let ghost p = tail(inner_at(buf@, inner_len as nat), ETH_HDR_LEN as int);
        let (headroom, rest) = buf.split_at_mut(OVERLAY_OVERHEAD);
        let request: &[u8] = &rest[ETH_HDR_LEN..inner_len];
        assert(request@ =~= p);
        let r: Decision = self.answer(request, headroom);
        proof {
            let mac = old(self)@.cfg.virtual_gateway_mac@;
            law_reply_answers_request(p, mac);
            assert(buf@ =~= splice(old(buf)@, 0, reply_frame(p, mac)));
        }
        r
    }

    /// Makes the inner frame that stands at `OVERLAY_OVERHEAD` in `out` ready for `hop`.
    #[verifier::rlimit(40)]
    fn prepare_inner(&mut self, out: &mut [u8], inner_len: usize, hop: Hop, now: u64)
        requires
            old(self).wf(),
            encap_fits(old(out)@.len(), inner_len as nat),
            inner_len >= ETH_HDR_LEN,
            ipv4_error(tail(inner_at(old(out)@, inner_len as nat), ETH_HDR_LEN as int)) is None,
        ensures
            final(self).wf(),
            ({
                let s = inner_at(old(out)@, inner_len as nat);
                let (engine, _, natted) = old(self)@.egress(s, hop, now);
                &&& final(self)@ == (PipelineState {
                    engine,
                    stats: PipelineStats {
                        natted: counted(old(self)@.stats.natted, natted),
                        ..old(self)@.stats
                    },
                    ..old(self)@
                })
                &&& final(out)@ == splice(
                    old(out)@,
                    OVERLAY_OVERHEAD as int,
                    old(self)@.sent(s, hop, now),
                )
            }),
    {
        let ghost was = self@;
        assert(out@.len() == out.len());
        let ip_off: usize = OVERLAY_OVERHEAD + ETH_HDR_LEN;
        let end: usize = OVERLAY_OVERHEAD + inner_len;
        let ghost s = inner_at(out@, inner_len as nat);
        let ghost packet = tail(s, ETH_HDR_LEN as int);
        // Overlay L2 adjacency: rewrite the inner destination MAC in place.
        if let Some(m) = hop.mac {
            put_mac(out, OVERLAY_OVERHEAD, m);
        }
        assert(out@.subrange(ip_off as int, end as int) =~= packet);
        // SNAT on egress from the VPC.
        if hop.snat {
            if translate_range(&mut self.nat, out, ip_off, end, Direction::Outbound, now) {
                self.stats.natted = self.stats.natted.wrapping_add(1);
            }
        }
        proof {
            lemma_sent_len(was, s, hop, now);
            assert(out@ =~= splice(
                old(out)@,
                OVERLAY_OVERHEAD as int,
                was.sent(s, hop, now),
            ));
        }
    }

    /// Encapsulates the inner frame that stands at `OVERLAY_OVERHEAD` in `out`.
    fn encap_placed(
        &mut self,
        out: &mut [u8],
        inner_len: usize,
        hop: Hop,
        now: u64,
        vni: u32,
    ) -> (r: Decision)
        requires
            old(self).wf(),
            encap_fits(old(out)@.len(), inner_len as nat),
            inner_len >= ETH_HDR_LEN,
            ipv4_error(tail(inner_at(old(out)@, inner_len as nat), ETH_HDR_LEN as int)) is None,
        ensures
            final(self).wf(),
            (Outcome { state: final(self)@, out: final(out)@, decision: r }) == old(
                self,
            )@.forwarding(inner_at(old(out)@, inner_len as nat), old(out)@, hop, now, vni),
    {
        let ghost was = self@;
        let ghost s = inner_at(out@, inner_len as nat);
        let ghost sent = was.sent(s, hop, now);
        assert(out@.len() == out.len());
        let ip_off: usize = OVERLAY_OVERHEAD + ETH_HDR_LEN;
        let end: usize = OVERLAY_OVERHEAD + inner_len;
        self.prepare_inner(out, inner_len, hop, now);
        proof {
            lemma_sent_len(was, s, hop, now);
            assert(inner_at(out@, inner_len as nat) =~= sent);
            assert(out@.subrange(ip_off as int, end as int) =~= tail(sent, ETH_HDR_LEN as int));
        }
        // Flow entropy of the packet as it goes out.
        let flow: u16 = match Ipv4View::parse(&out[ip_off..end]) {
            Ok(ip) => flow_hash_of(&ip),
            Err(_) => 0,
        };
        let ip_id: u16 = self.next_ip_id();
        let params: EncapParams = EncapParams {
            outer_src_mac: self.cfg.outer_src_mac,
            outer_dst_mac: self.cfg.outer_dst_mac,
            outer_src_ip: self.cfg.local_node_ip,
            outer_dst_ip: hop.node,
            vni,
            flow_hash: flow,
            ip_id,
            outer_udp_checksum: self.cfg.outer_udp_checksum,
        };
        assert(params == was.params(sent, hop, vni));
        match overlay::encap_in_place(out, inner_len, &params) {
            Ok(n) => {
                self.stats.encapped = self.stats.encapped.wrapping_add(1);
                proof {
                    law_overlay_length(params, sent);
                    assert(out@ =~= splice(old(out)@, 0, overlay_frame(params, sent)));
                }
                Decision::Forward(n)
            },
            Err(_) => self.drop_frame("encap-out-too-small"),
        }
    }

    /// Tenant → underlay: resolve, optionally SNAT, encapsulate.
    ///
    /// Hot path: one copy of the inner frame into the output buffer, and the overlay
    /// header written in place.
    pub fn on_tenant_frame(&mut self, inner: &[u8], out: &mut [u8], now: u64) -> (r: Decision)
        requires
            old(self).wf(),
        ensures
            final(self).wf(),
            (Outcome { state: final(self)@, out: final(out)@, decision: r }) == old(self)@.tenant(
                inner@,
                old(out)@,
                now,
                old(self)@.cfg.vni,
            ),
    {
        let vni: u32 = self.cfg.vni;
        self.encap_for_vni(inner, out, now, vni)
    }

    /// The same for a tenant of the network `vni`, which need not be the one that this
    /// switch serves by default.
    pub fn encap_for_vni(&mut self, inner: &[u8], out: &mut [u8], now: u64, vni: u32) -> (r:
        Decision)
        requires
            old(self).wf(),
        ensures
            final(self).wf(),
            (Outcome { state: final(self)@, out: final(out)@, decision: r }) == old(self)@.tenant(
                inner@,
                old(out)@,
                now,
                vni,
            ),
    {
        match self.tenant_step(inner, vni) {
            Step::Drop(why) => self.drop_frame(why),
            Step::Answer => self.answer(skip(inner, ETH_HDR_LEN), out),
            Step::Encap(hop) => {
                let n: usize = inner.len();
                let room: usize = out.len();
                if room < OVERLAY_OVERHEAD || room - OVERLAY_OVERHEAD < n {
                    return self.drop_frame("encap-out-too-small");
                }
                // Place the inner frame directly in the output buffer (the single copy),
                // then build the overlay header in front of it.
                put_bytes(out, OVERLAY_OVERHEAD, inner);
                assert(inner_at(out@, n as nat) =~= inner@);
                let ghost placed = out@;
                let r: Decision = self.encap_placed(out, n, hop, now, vni);
                proof {
                    let was = old(self)@;
                    let sent = was.sent(inner@, hop, now);
                    let frame = overlay_frame(was.params(sent, hop, vni), sent);
                    lemma_sent_len(was, inner@, hop, now);
                    law_overlay_length(was.params(sent, hop, vni), sent);
                    assert(splice(placed, 0, frame) =~= splice(old(out)@, 0, frame));
                }
                r
            },
        }
    }

    /// Zero-copy variant of [`Pipeline::on_tenant_frame`]: the inner frame already
    /// stands in `buf`, behind `OVERLAY_OVERHEAD` bytes of headroom. The outer headers
    /// are stamped in front of it, and an ARP reply is built in the headroom.
    pub fn on_tenant_frame_inplace(&mut self, buf: &mut [u8], inner_len: usize, now: u64) -> (r:
        Decision)
        requires
            old(self).wf(),
        ensures
            final(self).wf(),
            (Outcome { state: final(self)@, out: final(buf)@, decision: r }) == old(
                self,
            )@.tenant_in_place(old(buf)@, inner_len as nat, now),
    {
        let room: usize = buf.len();
        if room < OVERLAY_OVERHEAD || room - OVERLAY_OVERHEAD < inner_len {
            return self.drop_frame("encap-out-too-small");
        }
        let vni: u32 = self.cfg.vni;
        let end: usize = OVERLAY_OVERHEAD + inner_len;
        match self.tenant_step(&buf[OVERLAY_OVERHEAD..end], vni) {
            Step::Drop(why) => self.drop_frame(why),
            Step::Answer => self.answer_in_place(buf, inner_len),
            Step::Encap(hop) => self.encap_placed(buf, inner_len, hop, now, vni),
        }
    }

    /// Zero-copy encapsulation of the frame in one slot.
    fn encap_slot(&mut self, buf: &mut [u8], slot: FrameSlot, now: u64) -> (r: Decision)
        requires
            old(self).wf(),
        ensures
            final(self).wf(),
            (Outcome { state: final(self)@, out: final(buf)@, decision: r }) == old(
                self,
            )@.slot_step(old(buf)@, slot, now),
    {
        if slot.offset > buf.len() {
            return self.drop_frame("encap-out-too-small");
        }
        let (_, rest) = buf.split_at_mut(slot.offset);
        self.on_tenant_frame_inplace(rest, slot.inner_len, now)
    }

    /// Zero-copy encapsulation of a burst: the frames in `slots`, one after the other,
    /// each in its place in `buf`. Returns one decision per slot.
    pub fn encap_batch_inplace(&mut self, buf: &mut [u8], slots: &[FrameSlot], now: u64) -> (r: Vec<
        Decision,
    >)
        requires
            old(self).wf(),
        ensures
            final(self).wf(),
            (Batch { state: final(self)@, buf: final(buf)@, decisions: r@ }) == old(self)@.batch(
                old(buf)@,
                slots@,
                now,
            ),
    {
        let ghost was = self@;
        let ghost buf0 = buf@;
        let n: usize = slots.len();
        let mut out: Vec<Decision> = Vec::new();
        let mut i: usize = 0;
        assert(slots@.take(0) =~= Seq::<FrameSlot>::empty());
        assert(out@ =~= Seq::<Decision>::empty());
        while i < n
            invariant
                n == slots@.len(),
                i <= n,
                self.wf(),
                (Batch { state: self@, buf: buf@, decisions: out@ }) == was.batch(
                    buf0,
                    slots@.take(i as int),
                    now,
                ),
            decreases n - i,
        {
            assert(slots@.take(i + 1).drop_last() =~= slots@.take(i as int));
            out.push(self.encap_slot(buf, slots[i], now));
            i = i + 1;
        }
        assert(slots@.take(n as int) =~= slots@);
        out
    }

    /// Underlay → tenant: decapsulate, optionally reverse-NAT, deliver inner frame.
    pub fn on_underlay_frame(&mut self, frame: &[u8], out: &mut [u8], now: u64) -> (r: Decision)
        requires
            old(self).wf(),
        ensures
            final(self).wf(),
            (Outcome { state: final(self)@, out: final(out)@, decision: r }) == old(
                self,
            )@.underlay(frame@, old(out)@, now),
    {
        let ghost was = self@;
        let (inner_len, is_ipv4): (usize, bool) = match overlay::decap(frame) {
            Ok(Some(d)) => {
                if d.header.vni != self.cfg.vni {
                    return self.drop_frame("wrong-vni");
                }
                if out.len() < d.inner.len() {
                    return self.drop_frame("decap-out-too-small");
                }
                put_bytes(out, 0, d.inner);
                let is_ipv4: bool = match EthFrame::parse(d.inner) {
                    Ok(e) => e.ethertype() == ethertype::IPV4,
                    Err(_) => false,
                };
                (d.inner.len(), is_ipv4)
            },
            Ok(None) => {
                self.stats.passed = self.stats.passed.wrapping_add(1);
                return Decision::Pass;
            },
            Err(_) => {
                return self.drop_frame("bad-encap");
            },
        };
        let ghost inner = parcel_of(frame@)->Ok_0.unwrap().inner;
        // Reverse NAT on the delivered inner packet (SNAT-reply / DNAT).
        if self.cfg.nat_ip.is_some() && is_ipv4 {
            assert(out@.subrange(ETH_HDR_LEN as int, inner_len as int) =~= tail(
                inner,
                ETH_HDR_LEN as int,
            ));
            if translate_range(&mut self.nat, out, ETH_HDR_LEN, inner_len, Direction::Inbound, now) {
                self.stats.natted = self.stats.natted.wrapping_add(1);
            }
        }
        self.stats.decapped = self.stats.decapped.wrapping_add(1);
        assert(out@ =~= splice(old(out)@, 0, was.ingress(inner, now).1));
        Decision::Forward(inner_len)
    }

    /// Reclaim NAT bindings idle for longer than `timeout`. Returns how many flows
    /// were evicted.
    pub fn gc(&mut self, now: u64, timeout: u64) -> (r: usize)
        requires
            old(self).wf(),
        ensures
            final(self).wf(),
            final(self)@ == (PipelineState {
                engine: old(self)@.engine.collected(cutoff_at(now, timeout)),
                ..old(self)@
            }),
            r == old(self)@.engine.idle_flows(cutoff_at(now, timeout)),
    {
        self.nat.gc(now, timeout)
    }
}

} // verus!
