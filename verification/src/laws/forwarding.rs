//! Where frames go.

use vstd::prelude::*;
use crate::addr::Ipv4Addr;
use crate::arp::reply_frame;
use crate::ipv4::ipv4_error;
use crate::laws::packets::{is_ipv4, law_arp_parses, law_arp_reply_layout, law_ipv4_parses};
use crate::laws::tables::law_rewriting_spares_the_rest;
use crate::laws::tunnel::law_overlay_layout;
use crate::overlay::{flow_key, fnv, fold_hash, overlay_frame, parcel_of};
use crate::pipeline::{no_stats, Decision, FrameSlot, Hop, PipelineStats, Step};
use crate::pipeline::laws::lemma_emitted_frame;
use crate::pipeline::state::{
    counted, flow_of, inner_at, is_question, translated, Outcome, PipelineState,
};
use crate::translate::Direction;
use crate::translate::rewrite::{applied, Rewrite};
use crate::translate::state::NatState;
use crate::wire::{be16, be32, splice, tail};
use crate::tuple_of;

verus! {

/// Whether the Ethernet frame `s` holds a whole IPv4 header.
pub open spec fn holds_ipv4(s: Seq<u8>) -> bool {
    s.len() >= 14 && s[12] == 8 && s[13] == 0 && is_ipv4(s.skip(14))
}

/// The destination address of the packet in a frame.
pub open spec fn destination(s: Seq<u8>) -> Ipv4Addr {
    Ipv4Addr { bits: be32(s, 30) }
}

/// Whether `rw` asks for anything.
pub open spec fn asks(rw: Rewrite) -> bool {
    rw.new_src_ip is Some || rw.new_dst_ip is Some || rw.new_src_port is Some || rw.new_dst_port
        is Some
}

/// The counter `n`, counted up once, or not.
pub open spec fn bumped(n: u64, b: bool) -> int {
    if b {
        (n + 1) % 0x1_0000_0000_0000_0000
    } else {
        n as int
    }
}

/// **The flow hash of a packet** is that of its 5-tuple, and 0 where it has none.
pub proof fn law_flow_of_a_packet(s: Seq<u8>)
    ensures
        match tuple_of(s) {
            Some(t) => flow_of(s) == fold_hash(
                fnv(flow_key(t.src_ip, t.dst_ip, t.protocol, t.src_port, t.dst_port)),
            ),
            None => flow_of(s) == 0,
        },
{
}

/// **A counter goes up by one, or stays.**
pub proof fn law_counting(n: u64, b: bool)
    ensures
        counted(n, b) == bumped(n, b),
{
}

/// **A new pipeline has counted nothing.**
pub proof fn law_first_counts()
    ensures
        no_stats().encapped == 0,
        no_stats().decapped == 0,
        no_stats().natted == 0,
        no_stats().arp_replied == 0,
        no_stats().dropped == 0,
        no_stats().passed == 0,
{
}

/// **A packet with a 5-tuple is translated as the engine decides**; one without is left
/// alone, and so is the engine.
pub proof fn law_translation_of_a_packet(
    engine: NatState,
    s: Seq<u8>,
    direction: Direction,
    now: u64,
)
    ensures
        ({
            let (after, t, natted) = translated(engine, s, direction, now);
            match tuple_of(s) {
                Some(k) => {
                    let (want, rw) = engine.crossed(k, direction, now);
                    after == want && t == applied(s, rw) && natted == asks(rw)
                },
                None => after == engine && t == s && !natted,
            }
        }),
{
}

/// What an encapsulated frame `f` in the outcome `o` says about where it comes from and
/// where it goes, with the inner frame `inner`.
pub open spec fn goes_to(
    st: PipelineState,
    o: Outcome,
    out: Seq<u8>,
    node: Ipv4Addr,
    vni: u32,
    inner: Seq<u8>,
) -> bool {
    let n = 50 + inner.len();
    let f = o.out.take(n as int);
    &&& o.decision == Decision::Forward(n as usize)
    &&& o.out.len() == out.len()
    &&& o.out.skip(n as int) == out.skip(n as int)
    &&& f.take(6) == st.cfg.outer_dst_mac@
    &&& f.subrange(6, 12) == st.cfg.outer_src_mac@
    &&& be32(f, 26) == st.cfg.local_node_ip.bits
    &&& be32(f, 30) == node.bits
    &&& be16(f, 18) == (st.ip_id + 1) % 0x1_0000
    &&& 0x1_0000 * f[46] + 256 * f[47] + f[48] == vni % 0x100_0000
    &&& be16(f, 44) == flow_of(inner.skip(14))
    &&& be16(f, 34) == 0xc000 + flow_of(inner.skip(14)) % 0x4000
    &&& f.skip(50) == inner
    &&& !st.cfg.outer_udp_checksum ==> f[40] == 0 && f[41] == 0
}

/// Whether an encapsulation left the pipeline `a` as `b`, but for the NAT.
pub open spec fn one_encapped(a: PipelineState, b: PipelineState, natted: bool) -> bool {
    &&& b.cfg == a.cfg
    &&& b.fabric == a.fabric
    &&& b.ip_id == (a.ip_id + 1) % 0x1_0000
    &&& b.stats.encapped == bumped(a.stats.encapped, true)
    &&& b.stats.natted == bumped(a.stats.natted, natted)
    &&& b.stats == (PipelineStats {
        encapped: b.stats.encapped,
        natted: b.stats.natted,
        ..a.stats
    })
}

proof fn lemma_frame_parts(s: Seq<u8>)
    requires
        s.len() >= 14,
        s.len() <= usize::MAX,
    ensures
        tail(s, 14) == s.skip(14),
        is_ipv4(s.skip(14)) <==> ipv4_error(tail(s, 14)) is None,
        be16(s, 12) == 0x0800 <==> s[12] == 8 && s[13] == 0,
        s.len() >= 34 ==> be32(s.skip(14), 16) == be32(s, 30),
{
    assert(tail(s, 14) =~= s.skip(14));
    law_ipv4_parses(s.skip(14));
}

/// What goes out for a frame with the next hop `hop`.
proof fn lemma_goes_to(
    st: PipelineState,
    s: Seq<u8>,
    out: Seq<u8>,
    hop: Hop,
    now: u64,
    vni: u32,
)
    requires
        holds_ipv4(s),
        st.step(s, vni) == Step::Encap(hop),
        50 + s.len() <= out.len() <= usize::MAX,
    ensures
        goes_to(st, st.tenant(s, out, now, vni), out, hop.node, vni, st.sent(s, hop, now)),
        st.sent(s, hop, now).len() == s.len(),
{
    lemma_frame_parts(s);
    let inner = st.sent(s, hop, now);
    let p = st.params(inner, hop, vni);
    let f = overlay_frame(p, inner);
    lemma_emitted_frame(st, s, out, hop, now, vni);
    law_overlay_layout(p, inner);
    let o = st.tenant(s, out, now, vni);
    let n = 50 + inner.len();
    assert(o.out == splice(out, 0, f));
    assert(o.out.take(n as int) =~= f);
    assert(o.out.skip(n as int) =~= out.skip(n as int));
    assert(tail(inner, 14) =~= inner.skip(14));
}

/// What an encapsulation leaves behind.
proof fn lemma_encapped(
    st: PipelineState,
    s: Seq<u8>,
    out: Seq<u8>,
    hop: Hop,
    now: u64,
    vni: u32,
)
    requires
        s.len() >= 14,
        st.step(s, vni) == Step::Encap(hop),
        50 + s.len() <= out.len(),
    ensures
        ({
            let o = st.tenant(s, out, now, vni);
            let (engine, packet, natted) = st.egress(s, hop, now);
            &&& one_encapped(st, o.state, natted)
            &&& o.state.engine == engine
            &&& hop.mac is None ==> st.sent(s, hop, now) == s.take(14) + packet
        }),
{
}

/// What the NAT makes of a frame to the gateway.
proof fn lemma_gateway_egress(st: PipelineState, s: Seq<u8>, hop: Hop, now: u64)
    requires
        s.len() >= 14,
        hop.snat == (st.cfg.nat_ip is Some),
    ensures
        match tuple_of(s.skip(14)) {
            Some(t) if st.cfg.nat_ip is Some => {
                let (engine, rw) = st.engine.outbound(t, now);
                st.egress(s, hop, now) == (engine, applied(s.skip(14), rw), asks(rw))
            },
            _ => st.egress(s, hop, now) == (st.engine, s.skip(14), false),
        },
{
    assert(tail(s, 14) =~= s.skip(14));
    law_translation_of_a_packet(st.engine, s.skip(14), Direction::Outbound, now);
}

/// **A frame to an endpoint goes to the node that hosts it**, from this node, in its
/// network. The inner frame is addressed to the endpoint's MAC and is otherwise the frame
/// that came; the NAT has no part in it.
pub proof fn law_frames_reach_their_node(
    st: PipelineState,
    s: Seq<u8>,
    out: Seq<u8>,
    now: u64,
    vni: u32,
)
    requires
        holds_ipv4(s),
        st.fabric.endpoints.contains_key((vni, destination(s))),
        50 + s.len() <= out.len() <= usize::MAX,
    ensures
        ({
            let ep = st.fabric.endpoints[(vni, destination(s))];
            let o = st.tenant(s, out, now, vni);
            &&& goes_to(st, o, out, ep.node_ip, vni, ep.inner_mac@ + s.skip(6))
            &&& one_encapped(st, o.state, false)
            &&& o.state.engine == st.engine
        }),
{
    lemma_frame_parts(s);
    let ep = st.fabric.endpoints[(vni, destination(s))];
    let hop = Hop { node: ep.node_ip, mac: Some(ep.inner_mac), snat: false };
    assert(st.step(s, vni) == Step::Encap(hop));
    lemma_goes_to(st, s, out, hop, now, vni);
    assert(st.sent(s, hop, now) =~= ep.inner_mac@ + s.skip(6));
}

/// **A frame to anywhere else goes to the gateway**, from this node. Where there is a NAT
/// address the packet in it is translated as the engine decides, if it has a 5-tuple;
/// otherwise the inner frame is the frame that came.
#[verifier::rlimit(60)]
pub proof fn law_other_frames_go_to_the_gateway(
    st: PipelineState,
    s: Seq<u8>,
    out: Seq<u8>,
    now: u64,
    vni: u32,
    gw: Ipv4Addr,
)
    requires
        holds_ipv4(s),
        !st.fabric.endpoints.contains_key((vni, destination(s))),
        st.cfg.gateway_node_ip == Some(gw),
        50 + s.len() <= out.len() <= usize::MAX,
    ensures
        ({
            let o = st.tenant(s, out, now, vni);
            match tuple_of(s.skip(14)) {
                Some(t) if st.cfg.nat_ip is Some => {
                    let (engine, rw) = st.engine.outbound(t, now);
                    &&& goes_to(st, o, out, gw, vni, s.take(14) + applied(s.skip(14), rw))
                    &&& one_encapped(st, o.state, asks(rw))
                    &&& o.state.engine == engine
                },
                _ => {
                    &&& goes_to(st, o, out, gw, vni, s)
                    &&& one_encapped(st, o.state, false)
                    &&& o.state.engine == st.engine
                },
            }
        }),
{
    lemma_frame_parts(s);
    let hop = Hop { node: gw, mac: None, snat: st.cfg.nat_ip is Some };
    assert(st.step(s, vni) == Step::Encap(hop));
    lemma_goes_to(st, s, out, hop, now, vni);
    lemma_encapped(st, s, out, hop, now, vni);
    lemma_gateway_egress(st, s, hop, now);
    assert(s.take(14) + s.skip(14) =~= s);
}

/// Whether the ARP payload of the frame `s` asks for the MAC of another address.
pub open spec fn asks_who_has(s: Seq<u8>) -> bool {
    let p = s.skip(14);
    &&& p.len() >= 28
    &&& p.take(6) == seq![0u8, 1u8, 8u8, 0u8, 6u8, 4u8]
    &&& p[6] == 0
    &&& p[7] == 1
    &&& be32(p, 14) != be32(p, 24)
}

/// Whether nothing happened to the pipeline `a` but that a drop was counted.
pub open spec fn only_dropped(a: PipelineState, b: PipelineState) -> bool {
    &&& b.stats.dropped == bumped(a.stats.dropped, true)
    &&& b == (PipelineState { stats: PipelineStats { dropped: b.stats.dropped, ..a.stats }, ..a })
}

/// **Why a frame from a tenant is dropped**, and that nothing happens then but a count.
pub proof fn law_tenant_drops(st: PipelineState, s: Seq<u8>, out: Seq<u8>, now: u64, vni: u32)
    requires
        s.len() <= usize::MAX,
    ensures
        ({
            let o = st.tenant(s, out, now, vni);
            let ty = 256 * s[12] + s[13];
            let known = st.fabric.endpoints.contains_key((vni, destination(s)))
                || st.cfg.gateway_node_ip is Some;
            let why = if s.len() < 14 {
                Some("bad-inner-eth")
            } else if ty == 0x0806 {
                if !asks_who_has(s) {
                    Some("arp-ignored")
                } else if out.len() < 42 {
                    Some("arp-build")
                } else {
                    None
                }
            } else if ty != 0x0800 {
                Some("non-ipv4-inner")
            } else if !is_ipv4(s.skip(14)) {
                Some("bad-inner-ip")
            } else if !known {
                Some("no-route")
            } else if out.len() < 50 + s.len() {
                Some("encap-out-too-small")
            } else {
                None
            };
            match why {
                Some(w) => {
                    &&& o.decision == Decision::Drop(w)
                    &&& o.out == out
                    &&& only_dropped(st, o.state)
                },
                None => !(o.decision is Drop),
            }
        }),
{
    if s.len() >= 14 {
        lemma_frame_parts(s);
        let p = s.skip(14);
        law_arp_parses(p);
        assert(is_question(tail(s, 14)) <==> asks_who_has(s));
    }
}

/// **A question is answered by the gateway's MAC**: the reply goes back where the question
/// came from, and nothing else happens but a count.
pub proof fn law_questions_are_answered(
    st: PipelineState,
    s: Seq<u8>,
    out: Seq<u8>,
    now: u64,
    vni: u32,
)
    requires
        14 <= s.len() <= usize::MAX,
        s[12] == 8,
        s[13] == 6,
        asks_who_has(s),
        42 <= out.len(),
    ensures
        ({
            let o = st.tenant(s, out, now, vni);
            let f = o.out.take(42);
            let gw = st.cfg.virtual_gateway_mac@;
            &&& o.decision == Decision::Reply(42)
            &&& o.out.len() == out.len()
            &&& o.out.skip(42) == out.skip(42)
            &&& f.take(6) == s.subrange(22, 28)
            &&& f.subrange(6, 12) == gw
            &&& f.subrange(12, 22) == seq![8u8, 6u8, 0u8, 1u8, 8u8, 0u8, 6u8, 4u8, 0u8, 2u8]
            &&& f.subrange(22, 28) == gw
            &&& f.subrange(28, 32) == s.subrange(38, 42)
            &&& f.subrange(32, 38) == s.subrange(22, 28)
            &&& f.subrange(38, 42) == s.subrange(28, 32)
            &&& o.state.stats.arp_replied == bumped(st.stats.arp_replied, true)
            &&& o.state == (PipelineState {
                stats: PipelineStats { arp_replied: o.state.stats.arp_replied, ..st.stats },
                ..st
            })
        }),
{
    lemma_frame_parts(s);
    let p = s.skip(14);
    let gw = st.cfg.virtual_gateway_mac@;
    law_arp_parses(p);
    law_arp_reply_layout(p, gw);
    assert(is_question(tail(s, 14)));
    let o = st.tenant(s, out, now, vni);
    assert(o.out.take(42) =~= reply_frame(p, gw));
    assert(o.out.skip(42) =~= out.skip(42));
    assert(p.subrange(8, 14) =~= s.subrange(22, 28));
    assert(p.subrange(24, 28) =~= s.subrange(38, 42));
    assert(p.subrange(14, 18) =~= s.subrange(28, 32));
}

/// **What becomes of a frame from the underlay.** Overlay traffic of this network is
/// delivered, with the packet in it translated where there is a NAT address; that of
/// another network, broken or too long traffic is dropped; the rest is not ours.
pub proof fn law_delivery(st: PipelineState, frame: Seq<u8>, out: Seq<u8>, now: u64)
    requires
        out.len() <= usize::MAX,
    ensures
        ({
            let o = st.underlay(frame, out, now);
            match parcel_of(frame) {
                Err(_) => o.decision == Decision::Drop("bad-encap") && o.out == out
                    && only_dropped(st, o.state),
                Ok(None) => {
                    &&& o.decision == Decision::Pass
                    &&& o.out == out
                    &&& o.state.stats.passed == bumped(st.stats.passed, true)
                    &&& o.state == (PipelineState {
                        stats: PipelineStats { passed: o.state.stats.passed, ..st.stats },
                        ..st
                    })
                },
                Ok(Some(p)) => if p.header.vni != st.cfg.vni {
                    o.decision == Decision::Drop("wrong-vni") && o.out == out && only_dropped(
                        st,
                        o.state,
                    )
                } else if p.inner.len() > out.len() {
                    o.decision == Decision::Drop("decap-out-too-small") && o.out == out
                        && only_dropped(st, o.state)
                } else {
                    let n = p.inner.len();
                    let packet = p.inner.skip(14);
                    let seen = st.cfg.nat_ip is Some && n >= 14 && p.inner[12] == 8 && p.inner[13]
                        == 0;
                    &&& o.decision == Decision::Forward(n as usize)
                    &&& o.state.cfg == st.cfg
                    &&& o.state.fabric == st.fabric
                    &&& o.state.ip_id == st.ip_id
                    &&& o.state.stats.decapped == bumped(st.stats.decapped, true)
                    &&& o.state.stats == (PipelineStats {
                        decapped: o.state.stats.decapped,
                        natted: o.state.stats.natted,
                        ..st.stats
                    })
                    &&& match tuple_of(packet) {
                        Some(t) if seen => {
                            let (engine, rw) = st.engine.inbound(t, now);
                            &&& o.out == p.inner.take(14) + applied(packet, rw) + out.skip(n as int)
                            &&& o.state.engine == engine
                            &&& o.state.stats.natted == bumped(st.stats.natted, asks(rw))
                        },
                        _ => {
                            &&& o.out == p.inner + out.skip(n as int)
                            &&& o.state.engine == st.engine
                            &&& o.state.stats.natted == st.stats.natted
                        },
                    }
                },
            }
        }),
{
    let o = st.underlay(frame, out, now);
    if let Ok(Some(p)) = parcel_of(frame) {
        let n = p.inner.len();
        if p.header.vni == st.cfg.vni && n <= out.len() {
            assert(splice(out, 0, p.inner) =~= p.inner + out.skip(n as int));
            if n >= 14 {
                let packet = p.inner.skip(14);
                assert(tail(p.inner, 14) =~= packet);
                assert(p.inner.take(14) + packet =~= p.inner);
                if let Some(t) = tuple_of(packet) {
                    let rw = st.engine.inbound(t, now).1;
                    law_rewriting_spares_the_rest(packet, rw);
                    let d = p.inner.take(14) + applied(packet, rw);
                    assert(d.len() == n);
                    assert(splice(out, 0, d) =~= d + out.skip(n as int));
                }
            }
        }
    }
}

/// **Frames in place.** The frame that is looked at stands 50 bytes into the buffer; one
/// that does not fit is dropped and nothing happens but a count.
pub proof fn law_frames_in_place(st: PipelineState, buf: Seq<u8>, n: nat, now: u64)
    ensures
        50 + n <= buf.len() ==> st.tenant_in_place(buf, n, now) == st.tenant(
            buf.skip(50).take(n as int),
            buf,
            now,
            st.cfg.vni,
        ),
        50 + n > buf.len() ==> {
            let o = st.tenant_in_place(buf, n, now);
            &&& o.decision == Decision::Drop("encap-out-too-small")
            &&& o.out == buf
            &&& only_dropped(st, o.state)
        },
{
    if 50 + n <= buf.len() {
        assert(inner_at(buf, n) =~= buf.skip(50).take(n as int));
    }
}

/// **A burst is its frames, one after the other**: each frame is handled in the buffer and
/// the pipeline that the ones before it left, nothing in front of its slot is touched, and
/// there is one decision per frame.
pub proof fn law_bursts(
    st: PipelineState,
    buf: Seq<u8>,
    slots: Seq<FrameSlot>,
    slot: FrameSlot,
    now: u64,
)
    ensures
        st.batch(buf, Seq::empty(), now).state == st,
        st.batch(buf, Seq::empty(), now).buf == buf,
        st.batch(buf, Seq::empty(), now).decisions.len() == 0,
        ({
            let b = st.batch(buf, slots, now);
            let c = st.batch(buf, slots.push(slot), now);
            let at = slot.offset as int;
            let o = b.state.tenant_in_place(b.buf.skip(at), slot.inner_len as nat, now);
            &&& at <= b.buf.len() ==> {
                &&& c.state == o.state
                &&& c.decisions == b.decisions.push(o.decision)
                &&& c.buf == b.buf.take(at) + o.out
            }
            &&& at > b.buf.len() ==> {
                &&& c.buf == b.buf
                &&& c.decisions == b.decisions.push(Decision::Drop("encap-out-too-small"))
                &&& only_dropped(b.state, c.state)
            }
        }),
{
    let b = st.batch(buf, slots, now);
    assert(slots.push(slot).drop_last() =~= slots);
    if slot.offset <= b.buf.len() {
        assert(tail(b.buf, slot.offset as int) =~= b.buf.skip(slot.offset as int));
    }
}

} // verus!
