//! What holds of a pipeline as a whole.

use vstd::prelude::*;
use crate::arp::{law_reply_answers_request, ARP_FRAME_LEN};
use crate::control::NextHop;
use crate::ethernet::ETH_HDR_LEN;
use crate::ipv4::{addr_at, header_sound, header_valid, ipv4_error};
use crate::overlay::{
    data_header, encap_fits, law_encap_decap_round_trip, law_overlay_length, overlay_frame,
    parcel_of, EncapParams, Parcel, OVERLAY_OVERHEAD,
};
use crate::pipeline::state::{
    carries_ipv4, counted, inner_at, translated, Outcome, PipelineState,
};
use crate::pipeline::{Decision, Hop, Step};
use crate::translate::rewrite::{
    applied, dest_to, law_apply_keeps_length, law_apply_keeps_tuple, retargeted, Rewrite,
};
use crate::translate::state::{
    law_active_flow_survives_collection, law_established_reply_is_reversed, reply_to, NatState,
};
use crate::translate::Direction;
use crate::tuple_of;
use crate::wire::{splice, tail};
use crate::{FiveTuple, ParseError};

verus! {

/// The packet that goes out after translation still parses.
pub proof fn lemma_translated_parses(engine: NatState, s: Seq<u8>, direction: Direction, now: u64)
    requires
        ipv4_error(s) is None,
    ensures
        ipv4_error(translated(engine, s, direction, now).1) is None,
        translated(engine, s, direction, now).1.len() == s.len(),
{
    if let Some(t) = tuple_of(s) {
        let rw = engine.crossed(t, direction, now).1;
        law_apply_keeps_tuple(s, rw);
        law_apply_keeps_length(s, rw);
    }
}

/// An inner frame keeps its length on its way out.
pub proof fn lemma_sent_len(st: PipelineState, s: Seq<u8>, hop: Hop, now: u64)
    requires
        s.len() >= ETH_HDR_LEN,
        ipv4_error(tail(s, ETH_HDR_LEN as int)) is None,
    ensures
        st.sent(s, hop, now).len() == s.len(),
        st.adjacent(s, hop).len() == s.len(),
{
    lemma_translated_parses(st.engine, tail(s, ETH_HDR_LEN as int), Direction::Outbound, now);
}

/// The bytes that an outcome has transmitted.
pub open spec fn emitted(o: Outcome) -> Option<Seq<u8>> {
    match o.decision {
        Decision::Forward(n) => Some(o.out.take(n as int)),
        Decision::Reply(n) => Some(o.out.take(n as int)),
        _ => None,
    }
}

/// Whether what an outcome has transmitted lies in its buffer, which is as long as it was.
pub open spec fn in_bounds(o: Outcome, room: nat) -> bool {
    &&& o.out.len() == room
    &&& o.decision matches Decision::Forward(n) ==> n <= room
    &&& o.decision matches Decision::Reply(n) ==> n <= room
}

/// **Nothing is transmitted beyond the buffer**, whatever the frame holds.
pub proof fn law_outcomes_stay_in_bounds(
    st: PipelineState,
    s: Seq<u8>,
    out: Seq<u8>,
    now: u64,
    vni: u32,
)
    requires
        out.len() <= usize::MAX,
    ensures
        in_bounds(st.tenant(s, out, now, vni), out.len()),
        in_bounds(st.underlay(s, out, now), out.len()),
{
}

/// **A dropped frame changes nothing** but the count of dropped frames.
pub proof fn law_drop_changes_nothing(
    st: PipelineState,
    s: Seq<u8>,
    out: Seq<u8>,
    now: u64,
    vni: u32,
)
    ensures
        st.tenant(s, out, now, vni).decision matches Decision::Drop(why) ==> st.tenant(
            s,
            out,
            now,
            vni,
        ) == st.dropping(why, out),
        st.underlay(s, out, now).decision matches Decision::Drop(why) ==> st.underlay(s, out, now)
            == st.dropping(why, out),
{
}

/// What is emitted does not depend on what the buffer held.
proof fn lemma_buffer_contents_do_not_matter(
    st: PipelineState,
    s: Seq<u8>,
    a: Seq<u8>,
    b: Seq<u8>,
    now: u64,
    vni: u32,
)
    requires
        encap_fits(a.len(), s.len()),
        encap_fits(b.len(), s.len()),
        a.len() <= usize::MAX,
        b.len() <= usize::MAX,
    ensures
        st.tenant(s, a, now, vni).state == st.tenant(s, b, now, vni).state,
        st.tenant(s, a, now, vni).decision == st.tenant(s, b, now, vni).decision,
        emitted(st.tenant(s, a, now, vni)) == emitted(st.tenant(s, b, now, vni)),
{
    let oa = st.tenant(s, a, now, vni);
    let ob = st.tenant(s, b, now, vni);
    match st.step(s, vni) {
        Step::Answer => {
            let p = tail(s, ETH_HDR_LEN as int);
            law_reply_answers_request(p, st.cfg.virtual_gateway_mac@);
            assert(oa.out.take(ARP_FRAME_LEN as int) =~= ob.out.take(ARP_FRAME_LEN as int));
        },
        Step::Encap(hop) => {
            let inner = st.sent(s, hop, now);
            lemma_sent_len(st, s, hop, now);
            law_overlay_length(st.params(inner, hop, vni), inner);
            assert(oa.out.take(OVERLAY_OVERHEAD + s.len()) =~= ob.out.take(
                OVERLAY_OVERHEAD + s.len(),
            ));
        },
        _ => {},
    }
}

/// **The copying and the zero-copy path agree.** Whether the inner frame is copied into
/// `out` or already stands in `buf`, the decision, the bytes transmitted and the
/// pipeline afterwards are the same.
pub proof fn law_copy_and_zero_copy_agree(
    st: PipelineState,
    buf: Seq<u8>,
    n: nat,
    out: Seq<u8>,
    now: u64,
)
    requires
        encap_fits(buf.len(), n),
        encap_fits(out.len(), n),
        buf.len() <= usize::MAX,
        out.len() <= usize::MAX,
    ensures
        ({
            let copied = st.tenant(inner_at(buf, n), out, now, st.cfg.vni);
            let stamped = st.tenant_in_place(buf, n, now);
            &&& copied.state == stamped.state
            &&& copied.decision == stamped.decision
            &&& emitted(copied) == emitted(stamped)
        }),
{
    lemma_buffer_contents_do_not_matter(st, inner_at(buf, n), out, buf, now, st.cfg.vni);
}

/// What goes out for a frame that is encapsulated.
pub proof fn lemma_emitted_frame(
    st: PipelineState,
    s: Seq<u8>,
    out: Seq<u8>,
    hop: Hop,
    now: u64,
    vni: u32,
)
    requires
        st.step(s, vni) == Step::Encap(hop),
        encap_fits(out.len(), s.len()),
        out.len() <= usize::MAX,
    ensures
        ({
            let inner = st.sent(s, hop, now);
            &&& inner.len() == s.len()
            &&& emitted(st.tenant(s, out, now, vni)) == Some(
                overlay_frame(st.params(inner, hop, vni), inner),
            )
        }),
{
    let inner = st.sent(s, hop, now);
    let frame = overlay_frame(st.params(inner, hop, vni), inner);
    lemma_sent_len(st, s, hop, now);
    law_overlay_length(st.params(inner, hop, vni), inner);
    assert(splice(out, 0, frame).take(frame.len() as int) =~= frame);
}

/// **East-west traffic is delivered.** A frame from one endpoint of a network to another
/// is encapsulated toward the node of the other, and the pipeline there, serving the
/// same network without NAT, delivers exactly that frame, addressed to the endpoint's
/// MAC.
///
/// Left out are the few lengths that do not survive the overlay.
pub proof fn law_east_west_delivery(
    near: PipelineState,
    far: PipelineState,
    s: Seq<u8>,
    wire: Seq<u8>,
    out: Seq<u8>,
    nh: NextHop,
    now: u64,
    later: u64,
)
    requires
        carries_ipv4(s),
        ipv4_error(tail(s, ETH_HDR_LEN as int)) is None,
        near.fabric.next_hop(near.cfg.vni, addr_at(tail(s, ETH_HDR_LEN as int), 16)) == Some(nh),
        near.cfg.vni < 0x100_0000,
        far.cfg.vni == near.cfg.vni,
        far.cfg.nat_ip is None,
        encap_fits(wire.len(), s.len()),
        wire.len() <= usize::MAX,
        s.len() <= out.len() <= usize::MAX,
        (36 + s.len()) % 0x1_0000 >= 20,
    ensures
        ({
            let sent = near.tenant(s, wire, now, near.cfg.vni);
            let got = far.underlay(emitted(sent).unwrap(), out, later);
            &&& sent.decision == Decision::Forward((OVERLAY_OVERHEAD + s.len()) as usize)
            &&& got.decision == Decision::Forward(s.len() as usize)
            &&& emitted(got) == Some(splice(s, 0, nh.inner_mac@))
        }),
{
    let hop = Hop { node: nh.node_ip, mac: Some(nh.inner_mac), snat: false };
    let inner = near.sent(s, hop, now);
    let p = near.params(inner, hop, near.cfg.vni);
    lemma_emitted_frame(near, s, wire, hop, now, near.cfg.vni);
    law_encap_decap_round_trip(p, inner);
    assert(inner =~= splice(s, 0, nh.inner_mac@));
    assert(splice(out, 0, inner).take(s.len() as int) =~= inner);
}

/// **Networks stay apart on the wire.** A frame encapsulated for one network is dropped
/// by a pipeline that serves another.
pub proof fn law_other_networks_are_dropped(
    st: PipelineState,
    p: EncapParams,
    inner: Seq<u8>,
    out: Seq<u8>,
    now: u64,
)
    requires
        p.vni % 0x100_0000 != st.cfg.vni,
        (36 + inner.len()) % 0x1_0000 >= 20,
    ensures
        st.underlay(overlay_frame(p, inner), out, now) == st.dropping("wrong-vni", out),
{
    law_encap_decap_round_trip(p, inner);
}

/// **Traffic that leaves the network is translated.** The packet that goes to the
/// gateway has the 5-tuple that the NAT engine decided on, and its IPv4 header verifies
/// as before.
pub proof fn law_egress_is_translated(
    st: PipelineState,
    s: Seq<u8>,
    out: Seq<u8>,
    hop: Hop,
    t: FiveTuple,
    now: u64,
    vni: u32,
)
    requires
        st.step(s, vni) == Step::Encap(hop),
        hop.snat,
        tuple_of(tail(s, ETH_HDR_LEN as int)) == Some(t),
        encap_fits(out.len(), s.len()),
        out.len() <= usize::MAX,
        (36 + s.len()) % 0x1_0000 >= 20,
    ensures
        ({
            let o = st.tenant(s, out, now, vni);
            let (engine, rw) = st.engine.outbound(t, now);
            let inner = parcel_of(emitted(o).unwrap())->Ok_0.unwrap().inner;
            let packet = tail(inner, ETH_HDR_LEN as int);
            &&& o.state.engine == engine
            &&& parcel_of(emitted(o).unwrap()) matches Ok(Some(_))
            &&& tuple_of(packet) == Some(retargeted(t, rw))
            &&& header_valid(packet) == header_valid(tail(s, ETH_HDR_LEN as int))
            &&& header_sound(tail(s, ETH_HDR_LEN as int)) ==> header_sound(packet)
        }),
{
    let rw = st.engine.outbound(t, now).1;
    let packet = tail(s, ETH_HDR_LEN as int);
    let inner = st.sent(s, hop, now);
    let p = st.params(inner, hop, vni);
    lemma_emitted_frame(st, s, out, hop, now, vni);
    law_encap_decap_round_trip(p, inner);
    law_apply_keeps_tuple(packet, rw);
    assert(tail(inner, ETH_HDR_LEN as int) =~= applied(packet, rw));
}

/// The engine after a frame has left through the NAT.
proof fn lemma_engine_after(
    st: PipelineState,
    s: Seq<u8>,
    out: Seq<u8>,
    hop: Hop,
    t: FiveTuple,
    now: u64,
    vni: u32,
)
    requires
        st.step(s, vni) == Step::Encap(hop),
        hop.snat,
        tuple_of(tail(s, ETH_HDR_LEN as int)) == Some(t),
        encap_fits(out.len(), s.len()),
    ensures
        st.tenant(s, out, now, vni).state.engine == st.engine.outbound(t, now).0,
        st.tenant(s, out, now, vni).state.cfg == st.cfg,
{
}

/// What the NAT delivers of a frame whose packet has the tuple `t`.
proof fn lemma_ingress_is_translated(
    st: PipelineState,
    s: Seq<u8>,
    t: FiveTuple,
    rw: Rewrite,
    now: u64,
)
    requires
        st.cfg.nat_ip is Some,
        carries_ipv4(s),
        tuple_of(tail(s, ETH_HDR_LEN as int)) == Some(t),
        st.engine.inbound(t, now).1 == rw,
    ensures
        st.ingress(s, now).1.len() == s.len(),
        tuple_of(tail(st.ingress(s, now).1, ETH_HDR_LEN as int)) == Some(retargeted(t, rw)),
{
    let packet = tail(s, ETH_HDR_LEN as int);
    let delivered = st.ingress(s, now).1;
    law_apply_keeps_tuple(packet, rw);
    law_apply_keeps_length(packet, rw);
    assert(delivered == s.take(ETH_HDR_LEN as int) + applied(packet, rw));
    assert(tail(delivered, ETH_HDR_LEN as int) =~= applied(packet, rw));
}

/// What is delivered of a frame that holds the parcel `p`.
proof fn lemma_delivery(st: PipelineState, frame: Seq<u8>, p: Parcel, out: Seq<u8>, now: u64)
    requires
        parcel_of(frame) == Ok::<Option<Parcel>, ParseError>(Some(p)),
        p.header.vni == st.cfg.vni,
        p.inner.len() <= out.len() <= usize::MAX,
        st.ingress(p.inner, now).1.len() == p.inner.len(),
    ensures
        st.underlay(frame, out, now).decision == Decision::Forward(p.inner.len() as usize),
        emitted(st.underlay(frame, out, now)) == Some(st.ingress(p.inner, now).1),
{
    let delivered = st.ingress(p.inner, now).1;
    assert(splice(out, 0, delivered).take(p.inner.len() as int) =~= delivered);
}

/// Whether the frame `reply`, encapsulated with `p`, is delivered by `st` as a reply to
/// the flow `t`.
pub open spec fn delivers_reply(
    st: PipelineState,
    t: FiveTuple,
    p: EncapParams,
    reply: Seq<u8>,
    out: Seq<u8>,
    now: u64,
) -> bool {
    let got = st.underlay(overlay_frame(p, reply), out, now);
    let packet = tail(emitted(got).unwrap(), ETH_HDR_LEN as int);
    &&& got.decision == Decision::Forward(reply.len() as usize)
    &&& tuple_of(packet) == Some(t.swapped())
}

/// Where the NAT reverses replies to the port `port` of the flow `t`, they are delivered.
proof fn lemma_reply_is_delivered(
    st: PipelineState,
    t: FiveTuple,
    port: u16,
    p: EncapParams,
    reply: Seq<u8>,
    out: Seq<u8>,
    now: u64,
)
    requires
        st.engine.inbound(reply_to(st.engine.nat_ip, t, port), now).1 == dest_to(
            t.src_ip,
            t.src_port,
        ),
        st.cfg.nat_ip is Some,
        p.vni == st.cfg.vni,
        st.cfg.vni < 0x100_0000,
        carries_ipv4(reply),
        tuple_of(tail(reply, ETH_HDR_LEN as int)) == Some(reply_to(st.engine.nat_ip, t, port)),
        reply.len() <= out.len() <= usize::MAX,
        (36 + reply.len()) % 0x1_0000 >= 20,
    ensures
        delivers_reply(st, t, p, reply, out, now),
{
    let back = reply_to(st.engine.nat_ip, t, port);
    let rw = dest_to(t.src_ip, t.src_port);
    lemma_ingress_is_translated(st, reply, back, rw, now);
    law_encap_decap_round_trip(p, reply);
    lemma_delivery(
        st,
        overlay_frame(p, reply),
        Parcel {
            header: data_header(p.vni, p.flow_hash),
            inner: reply,
            outer_src_ip: p.outer_src_ip,
            outer_dst_ip: p.outer_dst_ip,
        },
        out,
        now,
    );
    assert(retargeted(back, rw) == t.swapped());
}

/// **A reply to a live flow is delivered.** For as long as the NAT has a port for the flow
/// `t`, a reply to that address and port goes to the private endpoint.
pub proof fn law_reply_to_live_flow_is_delivered(
    st: PipelineState,
    t: FiveTuple,
    clock: u64,
    p: EncapParams,
    reply: Seq<u8>,
    out: Seq<u8>,
    now: u64,
)
    requires
        st.engine.timely(clock),
        st.engine.fwd.contains_key(t),
        st.cfg.nat_ip is Some,
        p.vni == st.cfg.vni,
        st.cfg.vni < 0x100_0000,
        carries_ipv4(reply),
        tuple_of(tail(reply, ETH_HDR_LEN as int)) == Some(
            reply_to(st.engine.nat_ip, t, st.engine.fwd[t].port),
        ),
        reply.len() <= out.len() <= usize::MAX,
        (36 + reply.len()) % 0x1_0000 >= 20,
    ensures
        delivers_reply(st, t, p, reply, out, now),
{
    law_established_reply_is_reversed(st.engine, t, clock, now);
    lemma_reply_is_delivered(st, t, st.engine.fwd[t].port, p, reply, out, now);
}

/// **A reply comes back to where its flow began.** After a packet of the flow `t`, be it
/// new or established, has left through the NAT, a reply to the address and port that the
/// flow was given is delivered to the private endpoint; so it is after bindings that were
/// idle then have been collected.
pub proof fn law_reply_comes_back(
    st: PipelineState,
    s: Seq<u8>,
    wire: Seq<u8>,
    hop: Hop,
    t: FiveTuple,
    now: u64,
    cutoff: u64,
    p: EncapParams,
    reply: Seq<u8>,
    out: Seq<u8>,
    later: u64,
)
    requires
        st.engine.wf(),
        st.step(s, st.cfg.vni) == Step::Encap(hop),
        hop.snat,
        st.cfg.nat_ip is Some,
        tuple_of(tail(s, ETH_HDR_LEN as int)) == Some(t),
        !st.engine.dnat.contains_key(t),
        st.engine.outbound(t, now).0.fwd.contains_key(t),
        cutoff <= now,
        encap_fits(wire.len(), s.len()),
        p.vni == st.cfg.vni,
        st.cfg.vni < 0x100_0000,
        carries_ipv4(reply),
        tuple_of(tail(reply, ETH_HDR_LEN as int)) == Some(
            reply_to(st.engine.nat_ip, t, st.engine.outbound(t, now).0.fwd[t].port),
        ),
        reply.len() <= out.len() <= usize::MAX,
        (36 + reply.len()) % 0x1_0000 >= 20,
    ensures
        ({
            let sent = st.tenant(s, wire, now, st.cfg.vni).state;
            let after = PipelineState { engine: sent.engine.collected(cutoff), ..sent };
            &&& delivers_reply(sent, t, p, reply, out, later)
            &&& delivers_reply(after, t, p, reply, out, later)
        }),
{
    let sent = st.tenant(s, wire, now, st.cfg.vni).state;
    let after = PipelineState { engine: sent.engine.collected(cutoff), ..sent };
    let port = st.engine.outbound(t, now).0.fwd[t].port;
    lemma_engine_after(st, s, wire, hop, t, now, st.cfg.vni);
    law_active_flow_survives_collection(st.engine, t, now, cutoff, later);
    lemma_reply_is_delivered(sent, t, port, p, reply, out, later);
    lemma_reply_is_delivered(after, t, port, p, reply, out, later);
}

/// **Every frame from a tenant is counted once**: as encapsulated, as answered or as
/// dropped, as was decided.
pub proof fn law_tenant_frames_are_counted_once(
    st: PipelineState,
    s: Seq<u8>,
    out: Seq<u8>,
    now: u64,
    vni: u32,
)
    ensures
        ({
            let o = st.tenant(s, out, now, vni);
            let (was, now_is) = (st.stats, o.state.stats);
            &&& now_is.encapped == counted(was.encapped, o.decision is Forward)
            &&& now_is.arp_replied == counted(was.arp_replied, o.decision is Reply)
            &&& now_is.dropped == counted(was.dropped, o.decision is Drop)
            &&& !(o.decision is Pass)
            &&& now_is.decapped == was.decapped
            &&& now_is.passed == was.passed
        }),
{
}

/// **Every frame from the underlay is counted once**: as delivered, as not ours or as
/// dropped, as was decided.
pub proof fn law_underlay_frames_are_counted_once(
    st: PipelineState,
    s: Seq<u8>,
    out: Seq<u8>,
    now: u64,
)
    ensures
        ({
            let o = st.underlay(s, out, now);
            let (was, now_is) = (st.stats, o.state.stats);
            &&& now_is.decapped == counted(was.decapped, o.decision is Forward)
            &&& now_is.passed == counted(was.passed, o.decision is Pass)
            &&& now_is.dropped == counted(was.dropped, o.decision is Drop)
            &&& !(o.decision is Reply)
            &&& now_is.encapped == was.encapped
            &&& now_is.arp_replied == was.arp_replied
        }),
{
}

} // verus!
