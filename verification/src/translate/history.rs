//! What a NAT engine has been through, and what holds of it at any time.

use vstd::prelude::*;
use crate::addr::Ipv4Addr;
use crate::translate::rewrite::dest_to;
use crate::translate::state::{
    fresh_engine, law_collection_keeps_time, law_crossing_keeps_time,
    law_established_reply_is_reversed, reply_to, NatState,
};
use crate::translate::{Direction, DnatRule};
use crate::FiveTuple;

verus! {

/// One thing that happens to an engine.
pub enum Event {
    /// A packet crosses.
    Packet { tuple: FiveTuple, direction: Direction, now: u64 },
    /// What was last seen before `cutoff` is collected.
    Collection { cutoff: u64 },
    /// A port-forward rule is added.
    Rule(DnatRule),
}

impl Event {
    /// The time of a packet is not after `clock`.
    pub open spec fn is_by(self, clock: u64) -> bool {
        self matches Event::Packet { now, .. } ==> now <= clock
    }

    /// The engine `st` after this.
    pub open spec fn on(self, st: NatState) -> NatState {
        match self {
            Event::Packet { tuple, direction, now } => st.crossed(tuple, direction, now).0,
            Event::Collection { cutoff } => st.collected(cutoff),
            Event::Rule(rule) => NatState { rules: st.rules.push(rule), ..st },
        }
    }
}

/// Whether the clock never ran back: no packet has a time after that of a later packet.
pub open spec fn in_order(events: Seq<Event>) -> bool {
    forall|i: int, j: int|
        #![trigger events[i], events[j]]
        0 <= i < j < events.len() ==> (events[j] matches Event::Packet { now, .. }
            ==> events[i].is_by(now))
}

/// The engine `st` after all of `events`.
pub open spec fn lived(st: NatState, events: Seq<Event>) -> NatState
    decreases events.len(),
{
    if events.len() == 0 {
        st
    } else {
        events.last().on(lived(st, events.drop_last()))
    }
}

/// **An engine whose clock never ran back is timely**, whatever it has been through.
pub proof fn law_engines_are_timely(
    nat_ip: Ipv4Addr,
    port_min: u16,
    port_max: u16,
    events: Seq<Event>,
    clock: u64,
)
    requires
        port_min <= port_max,
        in_order(events),
        forall|i: int| 0 <= i < events.len() ==> (#[trigger] events[i]).is_by(clock),
    ensures
        lived(fresh_engine(nat_ip, port_min, port_max), events).timely(clock),
    decreases events.len(),
{
    if events.len() > 0 {
        let fresh = fresh_engine(nat_ip, port_min, port_max);
        let before = events.drop_last();
        let st = lived(fresh, before);
        let last = events.last();
        assert forall|i: int| 0 <= i < before.len() implies (#[trigger] before[i]).is_by(clock) by {
            assert(before[i] == events[i]);
        }
        assert(in_order(before)) by {
            assert forall|i: int, j: int|
                #![trigger before[i], before[j]]
                0 <= i < j < before.len() implies (before[j] matches Event::Packet { now, .. }
                ==> before[i].is_by(now)) by {
                assert(before[i] == events[i] && before[j] == events[j]);
            }
        }
        match last {
            Event::Packet { tuple, direction, now } => {
                assert forall|i: int| 0 <= i < before.len() implies (
                #[trigger] before[i]).is_by(now) by {
                    assert(before[i] == events[i] && events[events.len() - 1] == last);
                }
                assert(last == events[events.len() - 1]);
                law_engines_are_timely(nat_ip, port_min, port_max, before, now);
                law_crossing_keeps_time(st, tuple, direction, now, now);
                let s1 = last.on(st);
                assert(s1.timely(now) && now <= clock);
            },
            Event::Collection { cutoff } => {
                law_engines_are_timely(nat_ip, port_min, port_max, before, clock);
                law_collection_keeps_time(st, cutoff, clock);
            },
            Event::Rule(rule) => {
                law_engines_are_timely(nat_ip, port_min, port_max, before, clock);
                let s1 = last.on(st);
                assert forall|t: FiveTuple| #[trigger] s1.fwd.contains_key(t) implies
                    s1.reply_leads_back(t) && s1.reply_is_current(t) by {
                    assert(st.reply_leads_back(t) && st.reply_is_current(t));
                }
            },
        }
    }
}

/// **A live flow always gets its replies.** Whatever an engine has been through, as long
/// as its clock never ran back: while it has a port for the flow `t`, a reply to that
/// port goes to the private endpoint.
pub proof fn law_live_flows_get_their_replies(
    nat_ip: Ipv4Addr,
    port_min: u16,
    port_max: u16,
    events: Seq<Event>,
    t: FiveTuple,
    later: u64,
)
    requires
        port_min <= port_max,
        in_order(events),
        lived(fresh_engine(nat_ip, port_min, port_max), events).fwd.contains_key(t),
    ensures
        ({
            let st = lived(fresh_engine(nat_ip, port_min, port_max), events);
            st.inbound(reply_to(st.nat_ip, t, st.fwd[t].port), later).1 == dest_to(
                t.src_ip,
                t.src_port,
            )
        }),
{
    let st = lived(fresh_engine(nat_ip, port_min, port_max), events);
    law_engines_are_timely(nat_ip, port_min, port_max, events, u64::MAX);
    law_established_reply_is_reversed(st, t, u64::MAX, later);
}

} // verus!
