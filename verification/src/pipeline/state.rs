//! The mathematical state of a pipeline, and what frames do to it.

use vstd::prelude::*;
use crate::addr::Ipv4Addr;
use crate::arp;
use crate::arp::{arp_error, reply_frame, ARP_FRAME_LEN};
use crate::control::FabricState;
use crate::ethernet::{ethertype, ETH_HDR_LEN};
use crate::ipv4::{addr_at, ipv4_error};
use crate::overlay::{
    encap_fits, flow_key, fnv, fold_hash, overlay_frame, parcel_of, EncapParams, OVERLAY_OVERHEAD,
};
use crate::pipeline::{Decision, FrameSlot, Hop, PipelineConfig, PipelineStats, Step};
use crate::translate::rewrite::{applied, no_rewrite};
use crate::translate::state::NatState;
use crate::translate::Direction;
use crate::tuple_of;
use crate::wire::{be16, splice, tail};

verus! {

/// What a pipeline holds.
#[verifier::ext_equal]
pub struct PipelineState {
    pub cfg: PipelineConfig,
    pub fabric: FabricState,
    pub engine: NatState,
    /// The identification of the last packet that was encapsulated.
    pub ip_id: u16,
    pub stats: PipelineStats,
}

/// What becomes of a frame: the pipeline afterwards, the output buffer and the decision.
#[verifier::ext_equal]
pub struct Outcome {
    pub state: PipelineState,
    pub out: Seq<u8>,
    pub decision: Decision,
}

/// What becomes of a burst of frames in one buffer.
#[verifier::ext_equal]
pub struct Batch {
    pub state: PipelineState,
    pub buf: Seq<u8>,
    pub decisions: Seq<Decision>,
}

/// The ECMP flow hash of an inner IPv4 packet; 0 if it has no ports.
pub open spec fn flow_of(s: Seq<u8>) -> u16 {
    match tuple_of(s) {
        Some(t) => fold_hash(
            fnv(flow_key(t.src_ip, t.dst_ip, t.protocol, t.src_port, t.dst_port)),
        ),
        None => 0,
    }
}

/// What the NAT makes of the packet `s`: the engine afterwards, the packet, and whether
/// it was rewritten. Packets without ports are left alone.
pub open spec fn translated(engine: NatState, s: Seq<u8>, direction: Direction, now: u64) -> (
    NatState,
    Seq<u8>,
    bool,
) {
    match tuple_of(s) {
        Some(t) => {
            let (after, rw) = engine.crossed(t, direction, now);
            (after, applied(s, rw), rw != no_rewrite())
        },
        None => (engine, s, false),
    }
}

/// A counter, counted up where `b` holds.
pub open spec fn counted(n: u64, b: bool) -> u64 {
    if b {
        n.wrapping_add(1)
    } else {
        n
    }
}

/// The `n` bytes that stand behind the headroom in `buf`.
pub open spec fn inner_at(buf: Seq<u8>, n: nat) -> Seq<u8> {
    buf.subrange(OVERLAY_OVERHEAD as int, OVERLAY_OVERHEAD + n)
}

/// Whether the frame `s` carries IPv4.
pub open spec fn carries_ipv4(s: Seq<u8>) -> bool {
    s.len() >= ETH_HDR_LEN && be16(s, 12) == ethertype::IPV4
}

/// Whether `p` is an ARP request that is to be answered: who has another address?
pub open spec fn is_question(p: Seq<u8>) -> bool {
    arp_error(p) is None && be16(p, 6) == arp::oper::REQUEST && addr_at(p, 24) != addr_at(p, 14)
}

impl PipelineState {
    /// The next hop for `ip` in the network `vni`: an endpoint of the network, or else
    /// the default gateway.
    pub open spec fn route(self, vni: u32, ip: Ipv4Addr) -> Option<Hop> {
        match self.fabric.next_hop(vni, ip) {
            Some(nh) => Some(Hop { node: nh.node_ip, mac: Some(nh.inner_mac), snat: false }),
            None => match self.cfg.gateway_node_ip {
                Some(gw) => Some(Hop { node: gw, mac: None, snat: self.cfg.nat_ip is Some }),
                None => None,
            },
        }
    }

    /// What to do with the tenant frame `s` in the network `vni`.
    pub open spec fn step(self, s: Seq<u8>, vni: u32) -> Step {
        let payload = tail(s, ETH_HDR_LEN as int);
        if s.len() < ETH_HDR_LEN {
            Step::Drop("bad-inner-eth")
        } else if be16(s, 12) == ethertype::ARP {
            if is_question(payload) {
                Step::Answer
            } else {
                Step::Drop("arp-ignored")
            }
        } else if be16(s, 12) != ethertype::IPV4 {
            Step::Drop("non-ipv4-inner")
        } else if ipv4_error(payload) is Some {
            Step::Drop("bad-inner-ip")
        } else {
            match self.route(vni, addr_at(payload, 16)) {
                Some(hop) => Step::Encap(hop),
                None => Step::Drop("no-route"),
            }
        }
    }

    /// The frame is dropped.
    pub open spec fn dropping(self, why: &'static str, out: Seq<u8>) -> Outcome {
        Outcome {
            state: PipelineState {
                stats: PipelineStats { dropped: self.stats.dropped.wrapping_add(1), ..self.stats },
                ..self
            },
            out,
            decision: Decision::Drop(why),
        }
    }

    /// The ARP request `p` is answered.
    pub open spec fn answering(self, p: Seq<u8>, out: Seq<u8>) -> Outcome {
        if out.len() < ARP_FRAME_LEN {
            self.dropping("arp-build", out)
        } else {
            Outcome {
                state: PipelineState {
                    stats: PipelineStats {
                        arp_replied: self.stats.arp_replied.wrapping_add(1),
                        ..self.stats
                    },
                    ..self
                },
                out: splice(out, 0, reply_frame(p, self.cfg.virtual_gateway_mac@)),
                decision: Decision::Reply(ARP_FRAME_LEN),
            }
        }
    }

    /// The tenant frame `s` with its destination MAC rewritten for `hop`.
    pub open spec fn adjacent(self, s: Seq<u8>, hop: Hop) -> Seq<u8> {
        match hop.mac {
            Some(m) => splice(s, 0, m@),
            None => s,
        }
    }

    /// What the NAT makes of the packet in the frame that goes to `hop`.
    pub open spec fn egress(self, s: Seq<u8>, hop: Hop, now: u64) -> (NatState, Seq<u8>, bool) {
        if hop.snat {
            translated(self.engine, tail(s, ETH_HDR_LEN as int), Direction::Outbound, now)
        } else {
            (self.engine, tail(s, ETH_HDR_LEN as int), false)
        }
    }

    /// The inner frame that is sent to `hop`.
    pub open spec fn sent(self, s: Seq<u8>, hop: Hop, now: u64) -> Seq<u8> {
        self.adjacent(s, hop).take(ETH_HDR_LEN as int) + self.egress(s, hop, now).1
    }

    /// The parameters of the encapsulation of an inner frame.
    pub open spec fn params(self, inner: Seq<u8>, hop: Hop, vni: u32) -> EncapParams {
        EncapParams {
            outer_src_mac: self.cfg.outer_src_mac,
            outer_dst_mac: self.cfg.outer_dst_mac,
            outer_src_ip: self.cfg.local_node_ip,
            outer_dst_ip: hop.node,
            vni,
            flow_hash: flow_of(tail(inner, ETH_HDR_LEN as int)),
            ip_id: self.ip_id.wrapping_add(1),
            outer_udp_checksum: self.cfg.outer_udp_checksum,
        }
    }

    /// The tenant frame `s` is encapsulated toward `hop`.
    pub open spec fn forwarding(self, s: Seq<u8>, out: Seq<u8>, hop: Hop, now: u64, vni: u32) -> Outcome {
        if !encap_fits(out.len(), s.len()) {
            self.dropping("encap-out-too-small", out)
        } else {
            let (engine, _, natted) = self.egress(s, hop, now);
            let inner = self.sent(s, hop, now);
            Outcome {
                state: PipelineState {
                    engine,
                    ip_id: self.ip_id.wrapping_add(1),
                    stats: PipelineStats {
                        encapped: self.stats.encapped.wrapping_add(1),
                        natted: counted(self.stats.natted, natted),
                        ..self.stats
                    },
                    ..self
                },
                out: splice(out, 0, overlay_frame(self.params(inner, hop, vni), inner)),
                decision: Decision::Forward((OVERLAY_OVERHEAD + s.len()) as usize),
            }
        }
    }

    /// What becomes of the frame `s` from a tenant of the network `vni`.
    pub open spec fn tenant(self, s: Seq<u8>, out: Seq<u8>, now: u64, vni: u32) -> Outcome {
        match self.step(s, vni) {
            Step::Drop(why) => self.dropping(why, out),
            Step::Answer => self.answering(tail(s, ETH_HDR_LEN as int), out),
            Step::Encap(hop) => self.forwarding(s, out, hop, now, vni),
        }
    }

    /// What becomes of the frame of `n` bytes that stands behind the headroom in `buf`.
    pub open spec fn tenant_in_place(self, buf: Seq<u8>, n: nat, now: u64) -> Outcome {
        if !encap_fits(buf.len(), n) {
            self.dropping("encap-out-too-small", buf)
        } else {
            self.tenant(
                inner_at(buf, n),
                buf,
                now,
                self.cfg.vni,
            )
        }
    }

    /// What becomes of the frame in one slot of `buf`.
    pub open spec fn slot_step(self, buf: Seq<u8>, slot: FrameSlot, now: u64) -> Outcome {
        if slot.offset > buf.len() {
            self.dropping("encap-out-too-small", buf)
        } else {
            let o = self.tenant_in_place(tail(buf, slot.offset as int), slot.inner_len as nat, now);
            Outcome { out: buf.take(slot.offset as int) + o.out, ..o }
        }
    }

    /// What becomes of the frames in some slots of `buf`, one after the other.
    pub open spec fn batch(self, buf: Seq<u8>, slots: Seq<FrameSlot>, now: u64) -> Batch
        decreases slots.len(),
    {
        if slots.len() == 0 {
            Batch { state: self, buf, decisions: Seq::empty() }
        } else {
            let b = self.batch(buf, slots.drop_last(), now);
            let o = b.state.slot_step(b.buf, slots.last(), now);
            Batch { state: o.state, buf: o.out, decisions: b.decisions.push(o.decision) }
        }
    }

    /// What the NAT makes of the packet in a delivered frame.
    pub open spec fn ingress(self, s: Seq<u8>, now: u64) -> (NatState, Seq<u8>, bool) {
        if self.cfg.nat_ip is Some && carries_ipv4(s) {
            let (engine, packet, natted) = translated(
                self.engine,
                tail(s, ETH_HDR_LEN as int),
                Direction::Inbound,
                now,
            );
            (engine, s.take(ETH_HDR_LEN as int) + packet, natted)
        } else {
            (self.engine, s, false)
        }
    }

    /// What becomes of a frame from the underlay.
    pub open spec fn underlay(self, frame: Seq<u8>, out: Seq<u8>, now: u64) -> Outcome {
        match parcel_of(frame) {
            Err(_) => self.dropping("bad-encap", out),
            Ok(None) => Outcome {
                state: PipelineState {
                    stats: PipelineStats {
                        passed: self.stats.passed.wrapping_add(1),
                        ..self.stats
                    },
                    ..self
                },
                out,
                decision: Decision::Pass,
            },
            Ok(Some(p)) => if p.header.vni != self.cfg.vni {
                self.dropping("wrong-vni", out)
            } else if out.len() < p.inner.len() {
                self.dropping("decap-out-too-small", out)
            } else {
                let (engine, delivered, natted) = self.ingress(p.inner, now);
                Outcome {
                    state: PipelineState {
                        engine,
                        stats: PipelineStats {
                            decapped: self.stats.decapped.wrapping_add(1),
                            natted: counted(self.stats.natted, natted),
                            ..self.stats
                        },
                        ..self
                    },
                    out: splice(out, 0, delivered),
                    decision: Decision::Forward(p.inner.len() as usize),
                }
            },
        }
    }
}

} // verus!
