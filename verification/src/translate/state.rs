//! The mathematical state of a NAT engine, what packets do to it, and what holds of it.

use vstd::prelude::*;
use vstd::set_lib::{lemma_int_range, lemma_len_subset, lemma_map_size, set_int_range};
use crate::addr::Ipv4Addr;
use crate::translate::flow_table::{frees, kept, Binding};
use crate::translate::rewrite::{dest_to, no_rewrite, source_to, Rewrite};
use crate::laws::tables::steps;
use crate::translate::{zero_stats, Direction, DnatRule, NatStats, MAX_DNAT_BINDINGS};
use crate::FiveTuple;

verus! {

/// What an engine holds.
#[verifier::ext_equal]
pub struct NatState {
    pub nat_ip: Ipv4Addr,
    pub port_min: u16,
    pub port_max: u16,
    /// Where the search for a free port goes on.
    pub next_port: u16,
    pub used: Set<u16>,
    pub rules: Seq<DnatRule>,
    /// SNAT forward: original outbound tuple → allocated (nat_ip, nat_port).
    pub fwd: Map<FiveTuple, Binding>,
    /// SNAT reverse: expected reply tuple → original private (ip, port).
    pub rev: Map<FiveTuple, Binding>,
    /// DNAT reverse: internal server's reply tuple → restore external (ip, port).
    pub dnat: Map<FiveTuple, Binding>,
    pub stats: NatStats,
}

/// The reply to `t` when its source is shown as `nat_ip:port`.
pub open spec fn reply_to(nat_ip: Ipv4Addr, t: FiveTuple, port: u16) -> FiveTuple {
    FiveTuple {
        src_ip: t.dst_ip,
        dst_ip: nat_ip,
        protocol: t.protocol,
        src_port: t.dst_port,
        dst_port: port,
    }
}

/// The reply of the server behind `rule` to `t`.
pub open spec fn server_reply(t: FiveTuple, rule: DnatRule) -> FiveTuple {
    FiveTuple {
        src_ip: rule.to_ip,
        dst_ip: t.src_ip,
        protocol: t.protocol,
        src_port: rule.to_port,
        dst_port: t.src_port,
    }
}

/// Whether some flow in `fwd` has the port `p`.
pub open spec fn holds_port(fwd: Map<FiveTuple, Binding>, p: u16) -> bool {
    exists|t: FiveTuple| #[trigger] fwd.contains_key(t) && fwd[t].port == p
}

/// `b`, seen again.
pub open spec fn touched(b: Binding, now: u64) -> Binding {
    Binding { ip: b.ip, port: b.port, last_seen: now }
}

/// The first rule for the protocol and destination port of `t`.
pub open spec fn matching_rule(rules: Seq<DnatRule>, t: FiveTuple) -> Option<DnatRule>
    decreases rules.len(),
{
    if rules.len() == 0 {
        None
    } else {
        match matching_rule(rules.drop_last(), t) {
            Some(r) => Some(r),
            None => if rules.last().protocol == t.protocol && rules.last().ext_port == t.dst_port {
                Some(rules.last())
            } else {
                None
            },
        }
    }
}

impl NatState {
    /// Ports in use are in range and belong to one flow each, every port of a flow is
    /// in use, where the reply of a flow is tracked it leads back to the flow's private
    /// endpoint, and the tables are finite, that of forwarded connections within its
    /// limit.
    pub open spec fn wf(self) -> bool {
        &&& self.fwd.dom().finite()
        &&& self.dnat.dom().finite()
        &&& self.dnat.len() <= MAX_DNAT_BINDINGS
        &&& self.port_min <= self.next_port <= self.port_max
        &&& forall|t: FiveTuple| #[trigger]
            self.fwd.contains_key(t) ==> {
                &&& self.fwd[t].ip == self.nat_ip
                &&& self.port_min <= self.fwd[t].port <= self.port_max
                &&& self.used.contains(self.fwd[t].port)
            }
        &&& forall|p: u16| #[trigger] self.used.contains(p) ==> holds_port(self.fwd, p)
        &&& forall|t: FiveTuple, u: FiveTuple|
            #![trigger self.fwd.contains_key(t), self.fwd.contains_key(u)]
            self.fwd.contains_key(t) && self.fwd.contains_key(u) && self.fwd[t].port
                == self.fwd[u].port ==> t == u
        &&& forall|t: FiveTuple| #[trigger]
            self.fwd.contains_key(t) ==> self.reply_leads_back(t)
    }

    /// Where the reply of `t` is tracked, it leads back to the source of `t`.
    pub open spec fn reply_leads_back(self, t: FiveTuple) -> bool {
        let r = reply_to(self.nat_ip, t, self.fwd[t].port);
        self.rev.contains_key(r) ==> self.rev[r].ip == t.src_ip && self.rev[r].port == t.src_port
    }

    /// The reply of `t` is tracked, and was seen no earlier than `t`.
    pub open spec fn reply_is_current(self, t: FiveTuple) -> bool {
        let r = reply_to(self.nat_ip, t, self.fwd[t].port);
        self.rev.contains_key(r) && self.fwd[t].last_seen <= self.rev[r].last_seen
    }

    /// No flow was seen after `clock`, and the reply of each is tracked for as long as the
    /// flow itself. An engine whose clock never ran back is like this.
    pub open spec fn timely(self, clock: u64) -> bool {
        &&& self.wf()
        &&& forall|t: FiveTuple| #[trigger]
            self.fwd.contains_key(t) ==> self.fwd[t].last_seen <= clock && self.reply_is_current(t)
    }

    /// Whether the port `p` can be given to a flow.
    pub open spec fn is_free(self, p: u16) -> bool {
        self.port_min <= p <= self.port_max && !self.used.contains(p)
    }

    /// The number of ports in the pool.
    pub open spec fn span(self) -> nat {
        (self.port_max - self.port_min + 1) as nat
    }

    /// The port after `p`, going round.
    pub open spec fn port_after(self, p: u16) -> u16 {
        if p == self.port_max {
            self.port_min
        } else {
            (p + 1) as u16
        }
    }

    /// The first port not in use among the `n` ports from `at` on.
    pub open spec fn first_unused(self, at: u16, n: nat) -> Option<u16>
        decreases n,
    {
        if n == 0 {
            None
        } else if !self.used.contains(at) {
            Some(at)
        } else {
            self.first_unused(self.port_after(at), (n - 1) as nat)
        }
    }

    /// The port that a flow from `preferred` gets: its own if that is free, else the
    /// next free one in turn, if there is any.
    pub open spec fn allocated(self, preferred: u16) -> Option<u16> {
        if self.is_free(preferred) {
            Some(preferred)
        } else {
            self.first_unused(self.next_port, self.span())
        }
    }

    /// Where the search goes on after that.
    pub open spec fn next_after(self, preferred: u16) -> u16 {
        match self.allocated(preferred) {
            Some(p) if !self.is_free(preferred) => self.port_after(p),
            _ => self.next_port,
        }
    }

    /// An outbound packet: a server's reply is un-DNAT'd, a known flow keeps its port,
    /// a new flow gets one. The reply of the flow is expected from then on.
    pub open spec fn outbound(self, t: FiveTuple, now: u64) -> (NatState, Rewrite) {
        if self.dnat.contains_key(t) {
            let b = self.dnat[t];
            (
                NatState {
                    dnat: self.dnat.insert(t, touched(b, now)),
                    stats: NatStats {
                        reversed: self.stats.reversed.wrapping_add(1),
                        ..self.stats
                    },
                    ..self
                },
                source_to(b.ip, b.port),
            )
        } else if self.fwd.contains_key(t) {
            let b = self.fwd[t];
            (
                NatState {
                    fwd: self.fwd.insert(t, touched(b, now)),
                    rev: self.rev.insert(
                        reply_to(self.nat_ip, t, b.port),
                        Binding { ip: t.src_ip, port: t.src_port, last_seen: now },
                    ),
                    stats: NatStats {
                        snat_hits: self.stats.snat_hits.wrapping_add(1),
                        ..self.stats
                    },
                    ..self
                },
                source_to(self.nat_ip, b.port),
            )
        } else {
            match self.allocated(t.src_port) {
                Some(p) => (
                    NatState {
                        next_port: self.next_after(t.src_port),
                        used: self.used.insert(p),
                        fwd: self.fwd.insert(
                            t,
                            Binding { ip: self.nat_ip, port: p, last_seen: now },
                        ),
                        rev: self.rev.insert(
                            reply_to(self.nat_ip, t, p),
                            Binding { ip: t.src_ip, port: t.src_port, last_seen: now },
                        ),
                        stats: NatStats {
                            snat_created: self.stats.snat_created.wrapping_add(1),
                            ..self.stats
                        },
                        ..self
                    },
                    source_to(self.nat_ip, p),
                ),
                None => (
                    NatState {
                        stats: NatStats {
                            port_exhausted: self.stats.port_exhausted.wrapping_add(1),
                            ..self.stats
                        },
                        ..self
                    },
                    no_rewrite(),
                ),
            }
        }
    }

    /// An inbound packet: the reply to a tracked flow goes back to its private
    /// endpoint; a packet to a forwarded port goes to the server behind it, whose
    /// reply is tracked while there is room.
    pub open spec fn inbound(self, t: FiveTuple, now: u64) -> (NatState, Rewrite) {
        if self.rev.contains_key(t) {
            let b = self.rev[t];
            (
                NatState {
                    rev: self.rev.insert(t, touched(b, now)),
                    stats: NatStats {
                        reversed: self.stats.reversed.wrapping_add(1),
                        ..self.stats
                    },
                    ..self
                },
                dest_to(b.ip, b.port),
            )
        } else if t.dst_ip == self.nat_ip && matching_rule(self.rules, t) is Some {
            let rule = matching_rule(self.rules, t).unwrap();
            if self.dnat.len() < MAX_DNAT_BINDINGS {
                (
                    NatState {
                        dnat: self.dnat.insert(
                            server_reply(t, rule),
                            Binding { ip: self.nat_ip, port: rule.ext_port, last_seen: now },
                        ),
                        stats: NatStats {
                            dnat_created: self.stats.dnat_created.wrapping_add(1),
                            ..self.stats
                        },
                        ..self
                    },
                    dest_to(rule.to_ip, rule.to_port),
                )
            } else {
                (self, dest_to(rule.to_ip, rule.to_port))
            }
        } else {
            (self, no_rewrite())
        }
    }

    /// A packet that crosses in the given direction.
    pub open spec fn crossed(self, t: FiveTuple, direction: Direction, now: u64) -> (
        NatState,
        Rewrite,
    ) {
        match direction {
            Direction::Outbound => self.outbound(t, now),
            Direction::Inbound => self.inbound(t, now),
        }
    }

    /// The number of flows last seen before `cutoff`.
    pub open spec fn idle_flows(self, cutoff: u64) -> nat {
        (self.fwd.len() - kept(self.fwd, cutoff).len()) as nat
    }

    /// The state without what was last seen before `cutoff`, its ports free again.
    pub open spec fn collected(self, cutoff: u64) -> NatState {
        NatState {
            used: Set::new(|p: u16| self.used.contains(p) && !frees(self.fwd, cutoff, p)),
            fwd: kept(self.fwd, cutoff),
            rev: kept(self.rev, cutoff),
            dnat: kept(self.dnat, cutoff),
            stats: NatStats {
                expired: self.stats.expired.wrapping_add(self.idle_flows(cutoff) as u64),
                ..self.stats
            },
            ..self
        }
    }
}

/// The state of an engine that has not seen a packet.
pub open spec fn fresh_engine(nat_ip: Ipv4Addr, port_min: u16, port_max: u16) -> NatState {
    NatState {
        nat_ip,
        port_min,
        port_max,
        next_port: port_min,
        used: Set::empty(),
        rules: Seq::empty(),
        fwd: Map::empty(),
        rev: Map::empty(),
        dnat: Map::empty(),
        stats: zero_stats(),
    }
}

/// The time before which bindings are idle.
pub open spec fn cutoff_at(now: u64, timeout: u64) -> u64 {
    if now >= timeout {
        (now - timeout) as u64
    } else {
        0
    }
}

/// How far `p` is ahead of `at`, going round.
spec fn ahead(st: NatState, at: u16, p: u16) -> int {
    if p >= at {
        p - at
    } else {
        p - at + st.span()
    }
}

/// The search finds a port that is not in use, and misses none that it passes.
proof fn lemma_first_unused(st: NatState, at: u16, n: nat)
    requires
        st.port_min <= at <= st.port_max,
        n <= st.span(),
    ensures
        match st.first_unused(at, n) {
            Some(p) => st.is_free(p),
            None => forall|p: u16|
                st.port_min <= p <= st.port_max && ahead(st, at, p) < n ==> st.used.contains(p),
        },
    decreases n,
{
    if n > 0 && st.used.contains(at) {
        let next = st.port_after(at);
        lemma_first_unused(st, next, (n - 1) as nat);
        if st.first_unused(at, n) is None {
            assert forall|p: u16|
                st.port_min <= p <= st.port_max && ahead(st, at, p) < n implies st.used.contains(
                p,
            ) by {
                if p != at {
                    assert(ahead(st, next, p) == ahead(st, at, p) - 1);
                }
            }
        }
    }
}

/// The search passes over no port that is not in use.
pub proof fn lemma_search(st: NatState, at: u16, n: nat)
    requires
        st.port_min <= at <= st.port_max,
        n <= st.span(),
    ensures
        st.first_unused(at, n) matches Some(p) ==> forall|q: u16|
            st.port_min <= q <= st.port_max && steps(
                st.port_min as int,
                st.port_max as int,
                at as int,
                q as int,
            ) < steps(st.port_min as int, st.port_max as int, at as int, p as int)
                ==> #[trigger] st.used.contains(q),
    decreases n,
{
    let (lo, hi) = (st.port_min as int, st.port_max as int);
    lemma_first_unused(st, at, n);
    if n > 0 && st.used.contains(at) {
        let next = st.port_after(at);
        lemma_search(st, next, (n - 1) as nat);
        if let Some(p) = st.first_unused(at, n) {
            assert(p != at);
            assert forall|q: u16|
                lo <= q <= hi && steps(lo, hi, at as int, q as int) < steps(
                    lo,
                    hi,
                    at as int,
                    p as int,
                ) implies #[trigger] st.used.contains(q) by {
                if q != at {
                    assert(steps(lo, hi, next as int, q as int) == steps(lo, hi, at as int, q as int)
                        - 1);
                    assert(steps(lo, hi, next as int, p as int) == steps(lo, hi, at as int, p as int)
                        - 1);
                }
            }
        }
    }
}

/// **A new flow gets a free port exactly when there is one.**
pub proof fn law_allocation(st: NatState, preferred: u16)
    requires
        st.wf(),
    ensures
        st.allocated(preferred) matches Some(p) ==> st.is_free(p),
        st.allocated(preferred) is None <==> forall|p: u16| !st.is_free(p),
        st.port_min <= st.next_after(preferred) <= st.port_max,
{
    lemma_first_unused(st, st.next_port, st.span());
    if st.allocated(preferred) is None {
        assert forall|p: u16| !st.is_free(p) by {
            if st.port_min <= p <= st.port_max {
                assert(ahead(st, st.next_port, p) < st.span());
            }
        }
    }
}

/// **An outbound packet keeps the engine well-formed.**
pub proof fn law_outbound_keeps_wf(st: NatState, t: FiveTuple, now: u64)
    requires
        st.wf(),
    ensures
        st.outbound(t, now).0.wf(),
{
    let s1 = st.outbound(t, now).0;
    law_allocation(st, t.src_port);
    assert forall|p: u16| #[trigger] s1.used.contains(p) implies holds_port(s1.fwd, p) by {
        if st.used.contains(p) {
            assert(holds_port(st.fwd, p));
            let u = choose|u: FiveTuple| #[trigger] st.fwd.contains_key(u) && st.fwd[u].port == p;
            assert(s1.fwd.contains_key(u));
        } else {
            assert(s1.fwd.contains_key(t));
        }
    }
    assert forall|u: FiveTuple| #[trigger] s1.fwd.contains_key(u) implies s1.reply_leads_back(u) by {
        if u != t {
            assert(st.fwd.contains_key(u));
            assert(st.reply_leads_back(u));
        } else if st.fwd.contains_key(t) {
            assert(st.reply_leads_back(t));
        }
    }
}

/// **An inbound packet keeps the engine well-formed.**
pub proof fn law_inbound_keeps_wf(st: NatState, t: FiveTuple, now: u64)
    requires
        st.wf(),
    ensures
        st.inbound(t, now).0.wf(),
{
    let s1 = st.inbound(t, now).0;
    assert forall|u: FiveTuple| #[trigger] s1.fwd.contains_key(u) implies s1.reply_leads_back(u) by {
        assert(st.reply_leads_back(u));
    }
}

/// **Collection keeps the engine well-formed.**
pub proof fn law_collection_keeps_wf(st: NatState, cutoff: u64)
    requires
        st.wf(),
    ensures
        st.collected(cutoff).wf(),
{
    let s1 = st.collected(cutoff);
    lemma_len_subset(s1.fwd.dom(), st.fwd.dom());
    lemma_len_subset(s1.dnat.dom(), st.dnat.dom());
    assert forall|p: u16| #[trigger] s1.used.contains(p) implies holds_port(s1.fwd, p) by {
        assert(st.used.contains(p));
        assert(holds_port(st.fwd, p));
        let u = choose|u: FiveTuple| #[trigger] st.fwd.contains_key(u) && st.fwd[u].port == p;
        assert(s1.fwd.contains_key(u));
    }
    assert forall|t: FiveTuple| #[trigger] s1.fwd.contains_key(t) implies s1.used.contains(
        s1.fwd[t].port,
    ) && s1.reply_leads_back(t) by {
        assert(st.fwd.contains_key(t));
        assert(st.reply_leads_back(t));
        if frees(st.fwd, cutoff, st.fwd[t].port) {
            let u = choose|u: FiveTuple| #[trigger]
                st.fwd.contains_key(u) && st.fwd[u].last_seen < cutoff && st.fwd[u].port
                    == st.fwd[t].port;
            assert(u == t);
        }
    }
    assert forall|t: FiveTuple, u: FiveTuple|
        #![trigger s1.fwd.contains_key(t), s1.fwd.contains_key(u)]
        s1.fwd.contains_key(t) && s1.fwd.contains_key(u) && s1.fwd[t].port == s1.fwd[u].port implies t
        == u by {
        assert(st.fwd.contains_key(t) && st.fwd.contains_key(u));
    }
}

/// **A packet keeps the engine timely**, unless its time lies before that of another.
pub proof fn law_crossing_keeps_time(
    st: NatState,
    t: FiveTuple,
    direction: Direction,
    clock: u64,
    now: u64,
)
    requires
        st.timely(clock),
        clock <= now,
    ensures
        st.crossed(t, direction, now).0.timely(now),
{
    let s1 = st.crossed(t, direction, now).0;
    law_outbound_keeps_wf(st, t, now);
    law_inbound_keeps_wf(st, t, now);
    law_allocation(st, t.src_port);
    assert forall|u: FiveTuple| #[trigger] s1.fwd.contains_key(u) implies s1.fwd[u].last_seen
        <= now && s1.reply_is_current(u) by {
        if st.fwd.contains_key(u) {
            assert(st.reply_is_current(u));
        }
    }
}

/// **Collection keeps the engine timely.** The reply of a flow goes only with the flow.
pub proof fn law_collection_keeps_time(st: NatState, cutoff: u64, clock: u64)
    requires
        st.timely(clock),
    ensures
        st.collected(cutoff).timely(clock),
{
    let s1 = st.collected(cutoff);
    law_collection_keeps_wf(st, cutoff);
    assert forall|u: FiveTuple| #[trigger] s1.fwd.contains_key(u) implies s1.fwd[u].last_seen
        <= clock && s1.reply_is_current(u) by {
        assert(st.fwd.contains_key(u));
        assert(st.reply_is_current(u));
    }
}

/// **The reply to a new flow is reversed.** Its source is shown as an address and port
/// of the NAT; what comes back to them goes to the private endpoint.
pub proof fn law_reply_is_reversed(st: NatState, t: FiveTuple, now: u64, later: u64)
    requires
        st.wf(),
        !st.dnat.contains_key(t),
        !st.fwd.contains_key(t),
        st.allocated(t.src_port) is Some,
    ensures
        ({
            let p = st.allocated(t.src_port).unwrap();
            let (s1, rw) = st.outbound(t, now);
            &&& rw == source_to(st.nat_ip, p)
            &&& s1.inbound(reply_to(st.nat_ip, t, p), later).1 == dest_to(t.src_ip, t.src_port)
        }),
{
}

/// **The reply to a live flow is reversed**, for as long as the flow has its port.
pub proof fn law_established_reply_is_reversed(
    st: NatState,
    t: FiveTuple,
    clock: u64,
    later: u64,
)
    requires
        st.timely(clock),
        st.fwd.contains_key(t),
    ensures
        st.inbound(reply_to(st.nat_ip, t, st.fwd[t].port), later).1 == dest_to(
            t.src_ip,
            t.src_port,
        ),
{
    assert(st.reply_leads_back(t) && st.reply_is_current(t));
}

/// **Collection spares what is not idle.** A flow that has sent a packet since the cutoff
/// keeps its port, and its reply is still reversed.
pub proof fn law_active_flow_survives_collection(
    st: NatState,
    t: FiveTuple,
    now: u64,
    cutoff: u64,
    later: u64,
)
    requires
        st.wf(),
        !st.dnat.contains_key(t),
        st.outbound(t, now).0.fwd.contains_key(t),
        cutoff <= now,
    ensures
        ({
            let s1 = st.outbound(t, now).0.collected(cutoff);
            &&& s1.fwd.contains_key(t)
            &&& s1.inbound(reply_to(st.nat_ip, t, s1.fwd[t].port), later).1 == dest_to(
                t.src_ip,
                t.src_port,
            )
        }),
{
}

/// **A flow's translation is stable.** The next packet of the same flow is rewritten
/// in the same way.
pub proof fn law_translation_is_stable(st: NatState, t: FiveTuple, now: u64, later: u64)
    requires
        st.wf(),
    ensures
        st.outbound(t, now).0.outbound(t, later).1 == st.outbound(t, now).1,
{
    let s1 = st.outbound(t, now).0;
    law_allocation(st, t.src_port);
    law_outbound_keeps_wf(st, t, now);
    law_allocation(s1, t.src_port);
    if !st.dnat.contains_key(t) && !st.fwd.contains_key(t) && st.allocated(t.src_port) is None {
        assert forall|p: u16| !s1.is_free(p) by {
            assert(!st.is_free(p));
        }
    }
}

/// **Distinct flows have distinct ports**, all of them in the pool.
pub proof fn law_flows_have_distinct_ports(st: NatState, t: FiveTuple, u: FiveTuple)
    requires
        st.wf(),
        st.fwd.contains_key(t),
        st.fwd.contains_key(u),
        t != u,
    ensures
        st.fwd[t].port != st.fwd[u].port,
        st.port_min <= st.fwd[t].port <= st.port_max,
{
}

/// **The pool bounds the flows**: there are never more of them than ports.
pub proof fn law_flows_fit_the_pool(st: NatState)
    requires
        st.wf(),
    ensures
        st.fwd.len() <= st.span(),
{
    let port = |t: FiveTuple| st.fwd[t].port as int;
    let flows = st.fwd.dom();
    let ports = flows.map(port);
    let pool = set_int_range(st.port_min as int, st.port_max + 1);
    lemma_int_range(st.port_min as int, st.port_max + 1);
    assert forall|p: int| ports.contains(p) implies pool.contains(p) by {
        let t = choose|t: FiveTuple| flows.contains(t) && port(t) == p;
        assert(st.fwd.contains_key(t));
    }
    assert forall|t: FiveTuple, u: FiveTuple|
        flows.contains(t) && flows.contains(u) && #[trigger] port(t) == #[trigger] port(u) implies t
        == u by {
        assert(st.fwd.contains_key(t) && st.fwd.contains_key(u));
    }
    lemma_map_size(flows, ports, port);
    lemma_len_subset(ports, pool);
}

/// **The table of forwarded connections is bounded**, whatever packets come.
pub proof fn law_forwarding_table_is_bounded(
    st: NatState,
    t: FiveTuple,
    direction: Direction,
    now: u64,
)
    requires
        st.wf(),
    ensures
        st.crossed(t, direction, now).0.dnat.len() <= MAX_DNAT_BINDINGS,
{
    law_outbound_keeps_wf(st, t, now);
    law_inbound_keeps_wf(st, t, now);
}

/// **A packet touches no flow but its own**: the translation of every other flow is
/// what it was.
pub proof fn law_other_flows_are_untouched(
    st: NatState,
    t: FiveTuple,
    direction: Direction,
    now: u64,
    u: FiveTuple,
)
    requires
        u != t,
        st.fwd.contains_key(u),
    ensures
        st.crossed(t, direction, now).0.fwd.contains_key(u),
        st.crossed(t, direction, now).0.fwd[u] == st.fwd[u],
{
}

/// **A forwarded connection is reversed.** A packet to a forwarded port goes to the
/// server, and the server's reply is shown as coming from that port of the NAT, while
/// there is room to track it.
pub proof fn law_forwarding_is_reversed(st: NatState, t: FiveTuple, now: u64, later: u64)
    requires
        !st.rev.contains_key(t),
        t.dst_ip == st.nat_ip,
        matching_rule(st.rules, t) is Some,
        st.dnat.len() < MAX_DNAT_BINDINGS,
    ensures
        ({
            let rule = matching_rule(st.rules, t).unwrap();
            let (s1, rw) = st.inbound(t, now);
            &&& rw == dest_to(rule.to_ip, rule.to_port)
            &&& s1.outbound(server_reply(t, rule), later).1 == source_to(t.dst_ip, t.dst_port)
        }),
{
    lemma_matching_rule(st.rules, t);
}

proof fn lemma_matching_rule(rules: Seq<DnatRule>, t: FiveTuple)
    ensures
        matching_rule(rules, t) matches Some(r) ==> rules.contains(r) && r.protocol == t.protocol
            && r.ext_port == t.dst_port,
    decreases rules.len(),
{
    if rules.len() > 0 {
        let before = rules.drop_last();
        lemma_matching_rule(before, t);
        if let Some(r) = matching_rule(before, t) {
            let i = choose|i: int| 0 <= i < before.len() && before[i] == r;
            assert(rules[i] == r);
        } else if matching_rule(rules, t) is Some {
            assert(rules[rules.len() - 1] == rules.last());
        }
    }
}

/// **Collection reclaims idle flows and no others.** The port of an idle flow can be
/// given out again; a flow seen since keeps its binding.
pub proof fn law_collection_reclaims(st: NatState, cutoff: u64, t: FiveTuple)
    requires
        st.wf(),
        st.fwd.contains_key(t),
    ensures
        st.fwd[t].last_seen < cutoff ==> !st.collected(cutoff).fwd.contains_key(t) && st.collected(
            cutoff,
        ).is_free(st.fwd[t].port),
        st.fwd[t].last_seen >= cutoff ==> st.collected(cutoff).fwd.contains_key(t) && st.collected(
            cutoff,
        ).fwd[t] == st.fwd[t],
{
}

/// The rules after the first match do not matter.
pub proof fn lemma_rule_found_early(rules: Seq<DnatRule>, n: int, t: FiveTuple)
    requires
        0 <= n <= rules.len(),
        matching_rule(rules.take(n), t) is Some,
    ensures
        matching_rule(rules, t) == matching_rule(rules.take(n), t),
    decreases rules.len(),
{
    if n == rules.len() {
        assert(rules.take(n) =~= rules);
    } else {
        assert(rules.drop_last().take(n) =~= rules.take(n));
        lemma_rule_found_early(rules.drop_last(), n, t);
    }
}

} // verus!
