//! Stateful network address translation for the Andromeda virtual switch:
//!
//! * **SNAT / PAT (masquerade):** tenant flows leaving the VPC toward the underlay
//!   have their source rewritten to a shared NAT address and a dynamically-allocated
//!   port. A conntrack entry lets the reply be reversed.
//! * **DNAT (port forwarding):** inbound flows hitting `nat_ip:ext_port` are
//!   redirected to an internal endpoint, and the server's reply is un-DNAT'd.
//!
//! The engine is *pure*: [`NatEngine::process`] takes a 5-tuple + direction + logical
//! timestamp and returns a [`Rewrite`] describing what to change. The byte-level
//! mutation lives in [`apply`], which patches L3/L4 checksums incrementally. Its
//! behaviour is stated over [`NatState`](state::NatState), the mathematical state of
//! an engine.

use std::collections::HashSet;
use vstd::prelude::*;
use crate::addr::Ipv4Addr;
use crate::translate::flow_table::{Binding, FlowTable};
use crate::translate::state::{
    cutoff_at, fresh_engine, law_collection_keeps_wf, law_inbound_keeps_wf, law_outbound_keeps_wf,
    lemma_rule_found_early, matching_rule, reply_to, NatState,
};
use crate::FiveTuple;

pub use crate::translate::rewrite::{apply, Rewrite};

pub mod flow_table;
pub mod history;
pub mod rewrite;
pub mod state;

verus! {

broadcast use vstd::std_specs::hash::group_hash_axioms;

/// The most connections for which a server's reply is tracked. The table is keyed by
/// the *source* 5-tuple, so packets from many sources could otherwise grow it without
/// bound.
pub const MAX_DNAT_BINDINGS: usize = 0x1_0000;

/// Which way a packet is crossing the NAT boundary.
#[derive(Clone, Copy, Debug, PartialEq, Eq, Structural)]
pub enum Direction {
    /// From the private/tenant side toward the underlay (candidate for SNAT).
    Outbound,
    /// From the underlay toward the private side (candidate for DNAT / SNAT-reply).
    Inbound,
}

/// A static destination-NAT (port-forward) rule: `nat_ip:ext_port/proto` → `to_ip:to_port`.
#[derive(Clone, Copy, Debug)]
pub struct DnatRule {
    pub protocol: u8,
    pub ext_port: u16,
    pub to_ip: Ipv4Addr,
    pub to_port: u16,
}

/// Runtime counters, handy for the CLI/benchmarks. They wrap.
#[derive(Clone, Copy, Debug)]
pub struct NatStats {
    pub snat_created: u64,
    pub snat_hits: u64,
    pub dnat_created: u64,
    pub dnat_hits: u64,
    pub reversed: u64,
    pub port_exhausted: u64,
    pub expired: u64,
}

/// Counters at their start.
pub open spec fn zero_stats() -> NatStats {
    NatStats {
        snat_created: 0,
        snat_hits: 0,
        dnat_created: 0,
        dnat_hits: 0,
        reversed: 0,
        port_exhausted: 0,
        expired: 0,
    }
}

impl Default for NatStats {
    fn default() -> (r: Self)
        ensures
            r == zero_stats(),
    {
        NatStats {
            snat_created: 0,
            snat_hits: 0,
            dnat_created: 0,
            dnat_hits: 0,
            reversed: 0,
            port_exhausted: 0,
            expired: 0,
        }
    }
}

/// The NAT engine. One instance per virtual switch (per VPC egress).
pub struct NatEngine {
    nat_ip: Ipv4Addr,
    port_min: u16,
    port_max: u16,
    next_port: u16,
    used_ports: HashSet<u16>,
    dnat_rules: Vec<DnatRule>,
    snat_fwd: FlowTable,
    snat_rev: FlowTable,
    dnat_rev: FlowTable,
    stats: NatStats,
}

impl View for NatEngine {
    type V = NatState;

    closed spec fn view(&self) -> NatState {
        NatState {
            nat_ip: self.nat_ip,
            port_min: self.port_min,
            port_max: self.port_max,
            next_port: self.next_port,
            used: self.used_ports@,
            rules: self.dnat_rules@,
            fwd: self.snat_fwd@,
            rev: self.snat_rev@,
            dnat: self.dnat_rev@,
            stats: self.stats,
        }
    }
}

impl NatEngine {
    pub closed spec fn tables_wf(&self) -> bool {
        self.snat_fwd.wf() && self.snat_rev.wf() && self.dnat_rev.wf()
    }

    pub open spec fn wf(&self) -> bool {
        self.tables_wf() && self@.wf()
    }

    #[must_use]
    pub fn new(nat_ip: Ipv4Addr, port_min: u16, port_max: u16) -> (r: Self)
        requires
            port_min <= port_max,
        ensures
            r.wf(),
            r@ == fresh_engine(nat_ip, port_min, port_max),
    {
        NatEngine {
            nat_ip,
            port_min,
            port_max,
            next_port: port_min,
            used_ports: HashSet::new(),
            dnat_rules: Vec::new(),
            snat_fwd: FlowTable::new(),
            snat_rev: FlowTable::new(),
            dnat_rev: FlowTable::new(),
            stats: NatStats::default(),
        }
    }

    pub fn add_dnat_rule(&mut self, rule: DnatRule)
        requires
            old(self).wf(),
        ensures
            final(self).wf(),
            final(self)@ == (NatState { rules: old(self)@.rules.push(rule), ..old(self)@ }),
    {
        self.dnat_rules.push(rule);
        assert(forall|t: FiveTuple| #[trigger]
            self@.fwd.contains_key(t) ==> old(self)@.reply_leads_back(t));
    }

    #[must_use]
    pub fn stats(&self) -> (r: NatStats)
        ensures
            r == self@.stats,
    {
        self.stats
    }

    #[must_use]
    pub fn active_bindings(&self) -> (r: usize)
        requires
            self.wf(),
        ensures
            r == self@.fwd.len(),
    {
        self.snat_fwd.len()
    }

    /// Decide the rewrite for a packet identified by `tuple` moving in `direction`
    /// at logical time `now` (any monotonically increasing unit — millis work).
    pub fn process(&mut self, tuple: FiveTuple, direction: Direction, now: u64) -> (r: Rewrite)
        requires
            old(self).wf(),
        ensures
            final(self).wf(),
            (final(self)@, r) == old(self)@.crossed(tuple, direction, now),
    {
        match direction {
            Direction::Outbound => self.process_outbound(tuple, now),
            Direction::Inbound => self.process_inbound(tuple, now),
        }
    }

    /// Tracks the reply we expect back to `tuple`: from remote → nat_ip:nat_port. It is
    /// seen with every packet of the flow, so that it stays for as long as the flow does.
    fn expect_reply(&mut self, tuple: FiveTuple, nat_port: u16, now: u64)
        requires
            old(self).tables_wf(),
        ensures
            final(self).tables_wf(),
            final(self)@ == (NatState {
                rev: old(self)@.rev.insert(
                    reply_to(old(self)@.nat_ip, tuple, nat_port),
                    Binding { ip: tuple.src_ip, port: tuple.src_port, last_seen: now },
                ),
                ..old(self)@
            }),
    {
        let reply: FiveTuple = FiveTuple {
            src_ip: tuple.dst_ip,
            dst_ip: self.nat_ip,
            protocol: tuple.protocol,
            src_port: tuple.dst_port,
            dst_port: nat_port,
        };
        self.snat_rev.insert(
            reply,
            Binding { ip: tuple.src_ip, port: tuple.src_port, last_seen: now },
        );
    }

    fn process_outbound(&mut self, tuple: FiveTuple, now: u64) -> (r: Rewrite)
        requires
            old(self).wf(),
        ensures
            final(self).wf(),
            (final(self)@, r) == old(self)@.outbound(tuple, now),
    {
        let ghost was = self@;
        proof {
            law_outbound_keeps_wf(was, tuple, now);
        }
        // 1) Is this an internal server replying to a DNAT'd connection? Un-DNAT the source.
        if let Some(b) = self.dnat_rev.get(&tuple) {
            self.dnat_rev.insert(tuple, Binding { ip: b.ip, port: b.port, last_seen: now });
            self.stats.reversed = self.stats.reversed.wrapping_add(1);
            assert(self@ =~= was.outbound(tuple, now).0);
            return Rewrite {
                new_src_ip: Some(b.ip),
                new_dst_ip: None,
                new_src_port: Some(b.port),
                new_dst_port: None,
            };
        }

        // 2) Existing SNAT binding? Reuse it.
        if let Some(b) = self.snat_fwd.get(&tuple) {
            self.snat_fwd.insert(tuple, Binding { ip: b.ip, port: b.port, last_seen: now });
            self.expect_reply(tuple, b.port, now);
            self.stats.snat_hits = self.stats.snat_hits.wrapping_add(1);
            assert(self@ =~= was.outbound(tuple, now).0);
            return Rewrite {
                new_src_ip: Some(self.nat_ip),
                new_dst_ip: None,
                new_src_port: Some(b.port),
                new_dst_port: None,
            };
        }

        // 3) New outbound flow → allocate a NAT port and install conntrack.
        let nat_port: u16 = match self.alloc_port(tuple.src_port) {
            Some(p) => p,
            None => {
                self.stats.port_exhausted = self.stats.port_exhausted.wrapping_add(1);
                assert(self@ =~= was.outbound(tuple, now).0);
                // No translation possible; forward unchanged (will likely be dropped upstream).
                return Rewrite::default();
            },
        };
        self.snat_fwd.insert(
            tuple,
            Binding { ip: self.nat_ip, port: nat_port, last_seen: now },
        );
        self.expect_reply(tuple, nat_port, now);
        self.stats.snat_created = self.stats.snat_created.wrapping_add(1);
        assert(self@ =~= was.outbound(tuple, now).0);
        Rewrite {
            new_src_ip: Some(self.nat_ip),
            new_dst_ip: None,
            new_src_port: Some(nat_port),
            new_dst_port: None,
        }
    }

    /// The first port-forward rule for `tuple`.
    fn find_rule(&self, tuple: &FiveTuple) -> (r: Option<DnatRule>)
        ensures
            r == matching_rule(self@.rules, *tuple),
    {
        let n: usize = self.dnat_rules.len();
        let mut i: usize = 0;
        while i < n
            invariant
                n == self.dnat_rules@.len(),
                i <= n,
                matching_rule(self.dnat_rules@.take(i as int), *tuple) is None,
            decreases n - i,
        {
            let r: DnatRule = self.dnat_rules[i];
            let ghost before = self.dnat_rules@.take(i + 1);
            assert(before.drop_last() =~= self.dnat_rules@.take(i as int));
            if r.protocol == tuple.protocol && r.ext_port == tuple.dst_port {
                proof {
                    lemma_rule_found_early(self.dnat_rules@, i + 1, *tuple);
                }
                return Some(r);
            }
            i = i + 1;
        }
        assert(self.dnat_rules@.take(n as int) =~= self.dnat_rules@);
        None
    }

    fn process_inbound(&mut self, tuple: FiveTuple, now: u64) -> (r: Rewrite)
        requires
            old(self).wf(),
        ensures
            final(self).wf(),
            (final(self)@, r) == old(self)@.inbound(tuple, now),
    {
        let ghost was = self@;
        proof {
            law_inbound_keeps_wf(was, tuple, now);
        }
        // 1) Reply to an outbound SNAT flow? Reverse dst back to the private endpoint.
        if let Some(b) = self.snat_rev.get(&tuple) {
            self.snat_rev.insert(tuple, Binding { ip: b.ip, port: b.port, last_seen: now });
            self.stats.reversed = self.stats.reversed.wrapping_add(1);
            assert(self@ =~= was.inbound(tuple, now).0);
            return Rewrite {
                new_src_ip: None,
                new_dst_ip: Some(b.ip),
                new_src_port: None,
                new_dst_port: Some(b.port),
            };
        }

        // 2) New inbound connection hitting a DNAT rule?
        if tuple.dst_ip == self.nat_ip {
            if let Some(rule) = self.find_rule(&tuple) {
                // Install the reverse binding so the server's reply is un-DNAT'd. When
                // the table is full, still forward the packet but skip reverse-tracking
                // (a legitimate flow can re-establish after `gc`).
                let reply: FiveTuple = FiveTuple {
                    src_ip: rule.to_ip,
                    dst_ip: tuple.src_ip,
                    protocol: tuple.protocol,
                    src_port: rule.to_port,
                    dst_port: tuple.src_port,
                };
                if self.dnat_rev.len() < MAX_DNAT_BINDINGS {
                    self.dnat_rev.insert(
                        reply,
                        Binding { ip: self.nat_ip, port: rule.ext_port, last_seen: now },
                    );
                    self.stats.dnat_created = self.stats.dnat_created.wrapping_add(1);
                }
                assert(self@ =~= was.inbound(tuple, now).0);
                return Rewrite {
                    new_src_ip: None,
                    new_dst_ip: Some(rule.to_ip),
                    new_src_port: None,
                    new_dst_port: Some(rule.to_port),
                };
            }
        }
        Rewrite::default()
    }

    /// Allocate a free port, preferring to preserve `preferred` if available.
    fn alloc_port(&mut self, preferred: u16) -> (r: Option<u16>)
        requires
            old(self).wf(),
        ensures
            final(self).tables_wf(),
            r == old(self)@.allocated(preferred),
            final(self)@ == (NatState {
                next_port: old(self)@.next_after(preferred),
                used: match r {
                    Some(p) => old(self)@.used.insert(p),
                    None => old(self)@.used,
                },
                ..old(self)@
            }),
    {
        let ghost was = self@;
        if preferred >= self.port_min && preferred <= self.port_max && !self.used_ports.contains(
            &preferred,
        ) {
            self.used_ports.insert(preferred);
            return Some(preferred);
        }
        let span: u32 = (self.port_max - self.port_min) as u32 + 1;
        let mut i: u32 = 0;
        while i < span
            invariant
                span == was.span(),
                i <= span,
                was == old(self)@,
                was.wf(),
                !was.is_free(preferred),
                self.tables_wf(),
                self@ == (NatState { next_port: self.next_port, ..was }),
                self.next_port == if was.next_port + i <= was.port_max {
                    was.next_port + i
                } else {
                    was.next_port + i - was.span()
                },
                was.first_unused(was.next_port, was.span()) == was.first_unused(
                    self.next_port,
                    (was.span() - i) as nat,
                ),
            decreases span - i,
        {
            let p: u16 = self.next_port;
            if self.next_port == self.port_max {
                self.next_port = self.port_min;
            } else {
                self.next_port = self.next_port + 1;
            }
            if !self.used_ports.contains(&p) {
                self.used_ports.insert(p);
                return Some(p);
            }
            i = i + 1;
        }
        None
    }

    /// Evict bindings idle for longer than `timeout` (same unit as `now`). Returns evicted count.
    pub fn gc(&mut self, now: u64, timeout: u64) -> (r: usize)
        requires
            old(self).wf(),
        ensures
            final(self).wf(),
            final(self)@ == old(self)@.collected(cutoff_at(now, timeout)),
            r == old(self)@.idle_flows(cutoff_at(now, timeout)),
    {
        let ghost was = self@;
        let cutoff: u64 = now.saturating_sub(timeout);
        proof {
            law_collection_keeps_wf(was, cutoff);
        }
        let freed: Vec<u16> = self.snat_fwd.evict(cutoff);
        let _ = self.snat_rev.evict(cutoff);
        let _ = self.dnat_rev.evict(cutoff);
        let n: usize = freed.len();
        let ghost mid = *self;
        let mut i: usize = 0;
        while i < n
            invariant
                n == freed@.len(),
                i <= n,
                mid.used_ports@ == was.used,
                *self == (NatEngine { used_ports: self.used_ports, ..mid }),
                forall|p: u16| #[trigger]
                    self.used_ports@.contains(p) <==> was.used.contains(p)
                        && !freed@.take(i as int).contains(p),
            decreases n - i,
        {
            let p: u16 = freed[i];
            self.used_ports.remove(&p);
            proof {
                assert forall|q: u16| freed@.take(i + 1).contains(q) <==> q == p || freed@.take(
                    i as int,
                ).contains(q) by {
                    let now_taken = freed@.take(i + 1);
                    let taken = freed@.take(i as int);
                    if taken.contains(q) {
                        let j = choose|j: int| 0 <= j < taken.len() && taken[j] == q;
                        assert(now_taken[j] == q);
                    }
                    assert(now_taken[i as int] == p);
                    if now_taken.contains(q) && q != p {
                        let j = choose|j: int| 0 <= j < now_taken.len() && now_taken[j] == q;
                        assert(taken[j] == q);
                    }
                }
            }
            i = i + 1;
        }
        assert(freed@.take(n as int) =~= freed@);
        self.stats.expired = self.stats.expired.wrapping_add(n as u64);
        assert(self@.used =~= was.collected(cutoff).used);
        assert(self@ =~= was.collected(cutoff));
        n
    }
}

} // verus!
