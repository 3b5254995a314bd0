//! What a forwarding loop does with each received frame.
//!
//! A [`Forwarder`] holds the frame accounting of its ports and the counters. For a
//! received frame it says what to do next; the caller does it, with the memory and the
//! rings, and reports what came of it, until the frame is done with.

use vstd::prelude::*;
use crate::afxdp::{no_run_stats, Mode, RunStats, XskSocket, XskState, MAX_SHOWN};
use crate::pipeline::state::Outcome;
use crate::pipeline::{Decision, Pipeline};

verus! {

/// Where a received frame came in, and what is done with it.
#[derive(Clone, Copy, Debug, PartialEq, Eq, Structural)]
pub enum Role {
    /// The only port of a forwarder that shows what it receives.
    Dump,
    /// The only port of a forwarder that encapsulates.
    Encap,
    /// The only port of a forwarder that decapsulates and shows the result.
    Decap,
    /// The tenant port of a switch.
    Tenant,
    /// The underlay port of a switch.
    Underlay,
}

impl Role {
    /// The port that frames in this role come in on.
    pub open spec fn in_port(self) -> int {
        if self == Role::Underlay {
            1
        } else {
            0
        }
    }

    /// The port whose frames packets are built in.
    pub open spec fn out_port(self) -> int {
        if self == Role::Tenant {
            1
        } else {
            0
        }
    }

    /// Whether this is a role of a switch, which has two ports.
    pub open spec fn of_switch(self) -> bool {
        self == Role::Tenant || self == Role::Underlay
    }

    /// The role of frames on the only port of a forwarder.
    #[must_use]
    pub fn of_mode(mode: Mode) -> (r: Role)
        ensures
            r == match mode {
                Mode::Dump => Role::Dump,
                Mode::Encap => Role::Encap,
                Mode::Decap => Role::Decap,
            },
    {
        match mode {
            Mode::Dump => Role::Dump,
            Mode::Encap => Role::Encap,
            Mode::Decap => Role::Decap,
        }
    }

    /// The index of the port that frames in this role come in on.
    #[must_use]
    pub fn in_at(self) -> (r: usize)
        ensures
            r == self.in_port(),
    {
        if self == Role::Underlay {
            1
        } else {
            0
        }
    }

    /// The index of the port whose frames packets are built in.
    #[must_use]
    pub fn out_at(self) -> (r: usize)
        ensures
            r == self.out_port(),
    {
        if self == Role::Tenant {
            1
        } else {
            0
        }
    }
}

/// What to do with the output frame that the pipeline was given.
#[derive(Clone, Copy, Debug, PartialEq, Eq, Structural)]
pub enum Verdict {
    /// Transmit that many bytes of it on the port it belongs to.
    Send(u32),
    /// Copy that many bytes of it to a frame of the port that the request came in on,
    /// and transmit them there.
    SendBack(u32),
    /// Show that many bytes of it.
    Show(u32),
    /// Nothing.
    Discard,
}

/// A length as a descriptor holds it.
pub open spec fn descriptor_len(n: usize) -> u32 {
    (n as int % 0x1_0000_0000) as u32
}

/// What the verdict on a decision is. A forwarder with one port transmits replies on it
/// like everything else; a switch sends them back.
pub open spec fn verdict_of(role: Role, d: Decision) -> Verdict {
    match (role, d) {
        (Role::Encap, Decision::Forward(n)) => Verdict::Send(descriptor_len(n)),
        (Role::Encap, Decision::Reply(n)) => Verdict::Send(descriptor_len(n)),
        (Role::Decap, Decision::Forward(n)) => Verdict::Show(descriptor_len(n)),
        (Role::Tenant, Decision::Forward(n)) => Verdict::Send(descriptor_len(n)),
        (Role::Tenant, Decision::Reply(n)) => Verdict::SendBack(descriptor_len(n)),
        (Role::Underlay, Decision::Forward(n)) => Verdict::Send(descriptor_len(n)),
        _ => Verdict::Discard,
    }
}

/// What to do with the output frame, after the pipeline has decided.
fn judge(role: Role, d: Decision) -> (r: Verdict)
    ensures
        r == verdict_of(role, d),
{
    match d {
        Decision::Forward(n) => {
            let len: u32 = (n as u64 % 0x1_0000_0000) as u32;
            match role {
                Role::Dump => Verdict::Discard,
                Role::Decap => Verdict::Show(len),
                _ => Verdict::Send(len),
            }
        },
        Decision::Reply(n) => {
            let len: u32 = (n as u64 % 0x1_0000_0000) as u32;
            match role {
                Role::Encap => Verdict::Send(len),
                Role::Tenant => Verdict::SendBack(len),
                _ => Verdict::Discard,
            }
        },
        _ => Verdict::Discard,
    }
}

/// A received frame and the frame to build a packet in, both taken out of the free
/// pools until the pipeline has decided.
#[derive(Debug)]
pub struct Work {
    role: Role,
    rx: u64,
    tx: u64,
}

/// A frame on its way to a TX ring, and the received frame that it was made from.
#[derive(Debug)]
pub struct Sending {
    role: Role,
    rx: u64,
    port: usize,
    addr: u64,
}

/// What a [`Work`] holds.
pub struct WorkState {
    pub role: Role,
    pub rx: u64,
    pub tx: u64,
}

/// What a [`Sending`] holds.
pub struct SendingState {
    pub role: Role,
    pub rx: u64,
    pub port: int,
    pub addr: u64,
}

impl View for Work {
    type V = WorkState;

    closed spec fn view(&self) -> WorkState {
        WorkState { role: self.role, rx: self.rx, tx: self.tx }
    }
}

impl View for Sending {
    type V = SendingState;

    closed spec fn view(&self) -> SendingState {
        SendingState { role: self.role, rx: self.rx, port: self.port as int, addr: self.addr }
    }
}

impl Work {
    /// The address of the frame to build the packet in; it belongs to the port that
    /// packets in this role are built on.
    #[must_use]
    pub fn tx(&self) -> (r: u64)
        ensures
            r == self@.tx,
    {
        self.tx
    }
}

impl Sending {
    #[must_use]
    pub fn port(&self) -> (r: usize)
        ensures
            r == self@.port,
    {
        self.port
    }

    #[must_use]
    pub fn addr(&self) -> (r: u64)
        ensures
            r == self@.addr,
    {
        self.addr
    }
}

/// Runs the pipeline on a received frame: frames from a tenant are encapsulated, all
/// others are taken for overlay traffic.
pub fn process(role: Role, p: &mut Pipeline, frame: &[u8], out: &mut [u8], now: u64) -> (r: Decision)
    requires
        old(p).wf(),
    ensures
        final(p).wf(),
        (Outcome { state: final(p)@, out: final(out)@, decision: r }) == if role == Role::Encap
            || role == Role::Tenant {
            old(p)@.tenant(frame@, old(out)@, now, old(p)@.cfg.vni)
        } else {
            old(p)@.underlay(frame@, old(out)@, now)
        },
{
    match role {
        Role::Encap | Role::Tenant => p.on_tenant_frame(frame, out, now),
        _ => p.on_underlay_frame(frame, out, now),
    }
}

/// What the caller is to do next for a received frame.
#[derive(Debug)]
pub enum Action {
    /// Run the pipeline on the received frame, into the other frame, by [`process`], and
    /// report its decision.
    Process(Work),
    /// Offer the first `len` bytes of the frame to the TX ring of its port, and report
    /// whether it was taken.
    Send { sending: Sending, len: u32 },
    /// Copy the first `len` bytes of the frame `from` of the other port first.
    CopySend { from: u64, sending: Sending, len: u32 },
    /// Show a frame of the first port under the number `seq`. There is nothing to report.
    Show { seq: u64, addr: u64, len: u32 },
    /// Nothing; the frame is done with.
    Done,
}

/// The same over what the parts hold.
pub enum ActionState {
    Process(WorkState),
    Send { sending: SendingState, len: u32 },
    CopySend { from: u64, sending: SendingState, len: u32 },
    Show { seq: u64, addr: u64, len: u32 },
    Done,
}

impl View for Action {
    type V = ActionState;

    open spec fn view(&self) -> ActionState {
        match self {
            Action::Process(w) => ActionState::Process(w@),
            Action::Send { sending, len } => ActionState::Send { sending: sending@, len: *len },
            Action::CopySend { from, sending, len } => ActionState::CopySend {
                from: *from,
                sending: sending@,
                len: *len,
            },
            Action::Show { seq, addr, len } => ActionState::Show {
                seq: *seq,
                addr: *addr,
                len: *len,
            },
            Action::Done => ActionState::Done,
        }
    }
}

/// What a forwarder holds: one port, or the tenant and the underlay port of a switch.
#[verifier::ext_equal]
pub struct ForwarderState {
    pub ports: Seq<XskState>,
    pub stats: RunStats,
}

/// Counters with one more drop, but for a forwarder that only shows packets.
pub open spec fn one_dropped(stats: RunStats, role: Role) -> RunStats {
    if role == Role::Decap {
        stats
    } else {
        RunStats { dropped: stats.dropped.wrapping_add(1), ..stats }
    }
}

/// What transmitting does to the counters: frames that the TX ring took are counted, as
/// delivered too where they came from the underlay; others are dropped.
pub open spec fn one_sent(stats: RunStats, role: Role, queued: bool) -> RunStats {
    if queued {
        RunStats {
            tx: stats.tx.wrapping_add(1),
            decapped: if role == Role::Underlay {
                stats.decapped.wrapping_add(1)
            } else {
                stats.decapped
            },
            ..stats
        }
    } else {
        RunStats { dropped: stats.dropped.wrapping_add(1), ..stats }
    }
}

/// Shows a frame while the count of its kind is low.
pub open spec fn shown(count: u64, addr: u64, len: u32) -> ActionState {
    if count <= MAX_SHOWN {
        ActionState::Show { seq: count, addr, len }
    } else {
        ActionState::Done
    }
}

impl ForwarderState {
    /// Whether the forwarder has the ports of the role.
    pub open spec fn fits(self, role: Role) -> bool {
        self.ports.len() == 2 || (self.ports.len() == 1 && !role.of_switch())
    }

    /// The frame `addr` returns to the free pool of a port.
    pub open spec fn freeing(self, port: int, addr: u64) -> ForwarderState {
        ForwarderState { ports: self.ports.update(port, self.ports[port].with_free(addr)), ..self }
    }

    /// A frame is taken from the free pool of a port.
    pub open spec fn taking(self, port: int) -> ForwarderState {
        ForwarderState { ports: self.ports.update(port, self.ports[port].taken()), ..self }
    }

    /// The counters change.
    pub open spec fn counting(self, stats: RunStats) -> ForwarderState {
        ForwarderState { stats, ..self }
    }

    /// A frame of `len` bytes has been received at `addr`.
    pub open spec fn receiving(self, role: Role, addr: u64, len: u32) -> (
        ForwarderState,
        ActionState,
    ) {
        let stats = RunStats {
            rx: self.stats.rx.wrapping_add(1),
            bytes_in: self.stats.bytes_in.wrapping_add(len as u64),
            ..self.stats
        };
        let out = self.ports[role.out_port()].free;
        if role == Role::Dump {
            (self.counting(stats).freeing(role.in_port(), addr), shown(stats.rx, addr, len))
        } else if out.len() == 0 {
            (
                self.counting(one_dropped(stats, role)).freeing(role.in_port(), addr),
                ActionState::Done,
            )
        } else {
            (
                self.counting(stats).taking(role.out_port()),
                ActionState::Process(WorkState { role, rx: addr, tx: out.last() }),
            )
        }
    }

    /// The pipeline has decided on the work `w`.
    pub open spec fn deciding(self, w: WorkState, d: Decision) -> (ForwarderState, ActionState) {
        let (i, o) = (w.role.in_port(), w.role.out_port());
        match verdict_of(w.role, d) {
            Verdict::Send(len) => (
                self,
                ActionState::Send {
                    sending: SendingState { role: w.role, rx: w.rx, port: o, addr: w.tx },
                    len,
                },
            ),
            Verdict::SendBack(len) => {
                let freed = self.freeing(o, w.tx);
                if freed.ports[i].free.len() == 0 {
                    (
                        freed.counting(one_dropped(self.stats, w.role)).freeing(i, w.rx),
                        ActionState::Done,
                    )
                } else {
                    (
                        freed.taking(i),
                        ActionState::CopySend {
                            from: w.tx,
                            sending: SendingState {
                                role: w.role,
                                rx: w.rx,
                                port: i,
                                addr: freed.ports[i].free.last(),
                            },
                            len,
                        },
                    )
                }
            },
            Verdict::Show(len) => {
                let stats = RunStats {
                    decapped: self.stats.decapped.wrapping_add(1),
                    ..self.stats
                };
                (
                    self.counting(stats).freeing(o, w.tx).freeing(i, w.rx),
                    shown(stats.decapped, w.tx, len),
                )
            },
            Verdict::Discard => (
                self.counting(one_dropped(self.stats, w.role)).freeing(o, w.tx).freeing(i, w.rx),
                ActionState::Done,
            ),
        }
    }

    /// A frame has been offered to a TX ring, which took it or not.
    pub open spec fn offered(self, s: SendingState, queued: bool) -> ForwarderState {
        let counted = self.counting(one_sent(self.stats, s.role, queued));
        let settled = if queued {
            counted
        } else {
            counted.freeing(s.port, s.addr)
        };
        settled.freeing(s.role.in_port(), s.rx)
    }
}

/// The ports and the counters of a forwarding loop.
pub struct Forwarder {
    ports: Vec<XskSocket>,
    stats: RunStats,
}

impl View for Forwarder {
    type V = ForwarderState;

    closed spec fn view(&self) -> ForwarderState {
        ForwarderState { ports: self.ports@.map_values(|p: XskSocket| p@), stats: self.stats }
    }
}

impl Forwarder {
    /// A forwarder with one port.
    #[must_use]
    pub fn single(port: XskSocket) -> (r: Self)
        ensures
            r@.ports == seq![port@],
            r@.stats == no_run_stats(),
    {
        let mut ports: Vec<XskSocket> = Vec::new();
        ports.push(port);
        let r: Forwarder = Forwarder { ports, stats: RunStats::default() };
        assert(r@.ports =~= seq![port@]);
        r
    }

    /// A switch between a tenant and an underlay port.
    #[must_use]
    pub fn switch(tenant: XskSocket, underlay: XskSocket) -> (r: Self)
        ensures
            r@.ports == seq![tenant@, underlay@],
            r@.stats == no_run_stats(),
    {
        let mut ports: Vec<XskSocket> = Vec::new();
        ports.push(tenant);
        ports.push(underlay);
        let r: Forwarder = Forwarder { ports, stats: RunStats::default() };
        assert(r@.ports =~= seq![tenant@, underlay@]);
        r
    }

    #[must_use]
    pub fn stats(&self) -> (r: RunStats)
        ensures
            r == self@.stats,
    {
        self.stats
    }

    /// The port at `i`.
    #[must_use]
    pub fn port(&self, i: usize) -> (r: &XskSocket)
        requires
            i < self@.ports.len(),
        ensures
            r@ == self@.ports[i as int],
    {
        &self.ports[i]
    }

    /// The FILL ring of the port at `i`, offered the frames for `want`, took the first
    /// `pushed`.
    pub fn filled(&mut self, i: usize, want: u32, pushed: u32)
        requires
            i < old(self)@.ports.len(),
            pushed <= old(self)@.ports[i as int].offer(want),
        ensures
            final(self)@ == (ForwarderState {
                ports: old(self)@.ports.update(
                    i as int,
                    old(self)@.ports[i as int].after_fill(want, pushed),
                ),
                ..old(self)@
            }),
    {
        self.ports[i].filled(want, pushed);
        assert(self@.ports =~= old(self)@.ports.update(
            i as int,
            old(self)@.ports[i as int].after_fill(want, pushed),
        ));
    }

    /// The kernel has sent the TX frames `addrs` of the port at `i`.
    pub fn completed(&mut self, i: usize, addrs: &[u64])
        requires
            i < old(self)@.ports.len(),
        ensures
            final(self)@ == (ForwarderState {
                ports: old(self)@.ports.update(
                    i as int,
                    old(self)@.ports[i as int].after_completion(addrs@),
                ),
                ..old(self)@
            }),
    {
        self.ports[i].completed(addrs);
        assert(self@.ports =~= old(self)@.ports.update(
            i as int,
            old(self)@.ports[i as int].after_completion(addrs@),
        ));
    }

    fn recycle(&mut self, i: usize, addr: u64)
        requires
            i < old(self)@.ports.len(),
        ensures
            final(self)@ == old(self)@.freeing(i as int, addr),
    {
        self.ports[i].recycle(addr);
        assert(self@.ports =~= old(self)@.freeing(i as int, addr).ports);
    }

    fn take_frame(&mut self, i: usize) -> (r: Option<u64>)
        requires
            i < old(self)@.ports.len(),
        ensures
            old(self)@.ports[i as int].free.len() == 0 ==> r is None && final(self)@ == old(self)@,
            old(self)@.ports[i as int].free.len() > 0 ==> r == Some(
                old(self)@.ports[i as int].free.last(),
            ) && final(self)@ == old(self)@.taking(i as int),
    {
        let r: Option<u64> = self.ports[i].alloc_tx();
        assert(r is Some ==> self@.ports =~= old(self)@.taking(i as int).ports);
        assert(r is None ==> self@.ports =~= old(self)@.ports);
        r
    }

    fn count_drop(&mut self, role: Role)
        ensures
            final(self)@ == old(self)@.counting(one_dropped(old(self)@.stats, role)),
    {
        if role != Role::Decap {
            self.stats.dropped = self.stats.dropped.wrapping_add(1);
        }
    }

    /// A frame of `len` bytes was received at `addr`, on the port of the role.
    pub fn received(&mut self, role: Role, addr: u64, len: u32) -> (r: Action)
        requires
            old(self)@.fits(role),
        ensures
            (final(self)@, r@) == old(self)@.receiving(role, addr, len),
    {
        self.stats.rx = self.stats.rx.wrapping_add(1);
        self.stats.bytes_in = self.stats.bytes_in.wrapping_add(len as u64);
        if role == Role::Dump {
            self.recycle(role.in_at(), addr);
            let seq: u64 = self.stats.rx;
            return if seq <= MAX_SHOWN {
                Action::Show { seq, addr, len }
            } else {
                Action::Done
            };
        }
        match self.take_frame(role.out_at()) {
            Some(tx) => Action::Process(Work { role, rx: addr, tx }),
            None => {
                self.count_drop(role);
                self.recycle(role.in_at(), addr);
                Action::Done
            },
        }
    }

    /// The pipeline has decided on a frame.
    pub fn decided(&mut self, work: Work, d: Decision) -> (r: Action)
        requires
            old(self)@.fits(work@.role),
        ensures
            (final(self)@, r@) == old(self)@.deciding(work@, d),
    {
        let role: Role = work.role;
        match judge(role, d) {
            Verdict::Send(len) => Action::Send {
                sending: Sending { role, rx: work.rx, port: role.out_at(), addr: work.tx },
                len,
            },
            Verdict::SendBack(len) => {
                self.recycle(role.out_at(), work.tx);
                match self.take_frame(role.in_at()) {
                    Some(addr) => Action::CopySend {
                        from: work.tx,
                        sending: Sending { role, rx: work.rx, port: role.in_at(), addr },
                        len,
                    },
                    None => {
                        self.count_drop(role);
                        self.recycle(role.in_at(), work.rx);
                        Action::Done
                    },
                }
            },
            Verdict::Show(len) => {
                self.stats.decapped = self.stats.decapped.wrapping_add(1);
                self.recycle(role.out_at(), work.tx);
                self.recycle(role.in_at(), work.rx);
                let seq: u64 = self.stats.decapped;
                if seq <= MAX_SHOWN {
                    Action::Show { seq, addr: work.tx, len }
                } else {
                    Action::Done
                }
            },
            Verdict::Discard => {
                self.count_drop(role);
                self.recycle(role.out_at(), work.tx);
                self.recycle(role.in_at(), work.rx);
                Action::Done
            },
        }
    }

    /// A frame was offered to a TX ring, which took it or not.
    pub fn queued(&mut self, sending: Sending, taken: bool)
        requires
            old(self)@.fits(sending@.role),
            0 <= sending@.port < old(self)@.ports.len(),
        ensures
            final(self)@ == old(self)@.offered(sending@, taken),
    {
        let role: Role = sending.role;
        if taken {
            self.stats.tx = self.stats.tx.wrapping_add(1);
            if role == Role::Underlay {
                self.stats.decapped = self.stats.decapped.wrapping_add(1);
            }
        } else {
            self.stats.dropped = self.stats.dropped.wrapping_add(1);
            self.recycle(sending.port, sending.addr);
        }
        self.recycle(role.in_at(), sending.rx);
    }
}

/// How often `a` occurs in `s`.
pub open spec fn occurrences(s: Seq<u64>, a: u64) -> nat
    decreases s.len(),
{
    if s.len() == 0 {
        0
    } else {
        occurrences(s.drop_last(), a) + if s.last() == a {
            1nat
        } else {
            0
        }
    }
}

/// How often the frame `a` of a port is held by user space: in the free pool of the port,
/// or in what the caller was asked to do.
pub open spec fn held(st: ForwarderState, action: ActionState, port: int, a: u64) -> int {
    occurrences(st.ports[port].free, a) + pending(action, port, a)
}

/// How often the frame `a` of a port is in what the caller was asked to do.
pub open spec fn pending(action: ActionState, port: int, a: u64) -> int {
    match action {
        ActionState::Process(w) => once(w.role.in_port() == port && w.rx == a) + once(
            w.role.out_port() == port && w.tx == a,
        ),
        ActionState::Send { sending, .. } => pending_send(sending, port, a),
        ActionState::CopySend { sending, .. } => pending_send(sending, port, a),
        _ => 0,
    }
}

/// How often the frame `a` of a port is on its way to a TX ring or was the origin of one.
pub open spec fn pending_send(s: SendingState, port: int, a: u64) -> int {
    once(s.role.in_port() == port && s.rx == a) + once(s.port == port && s.addr == a)
}

/// One where `b` holds.
pub open spec fn once(b: bool) -> int {
    if b {
        1
    } else {
        0
    }
}

proof fn lemma_freed(s: Seq<u64>, x: u64, a: u64)
    ensures
        occurrences(s.push(x), a) == occurrences(s, a) + once(x == a),
{
    assert(s.push(x).drop_last() =~= s);
}

/// **No frame is lost or doubled when one is received**: the received frame is held once
/// more, every other as often as before.
pub proof fn law_receiving_keeps_frames(
    st: ForwarderState,
    role: Role,
    addr: u64,
    len: u32,
    port: int,
    a: u64,
)
    requires
        st.fits(role),
        0 <= port < st.ports.len(),
    ensures
        ({
            let (after, action) = st.receiving(role, addr, len);
            held(after, action, port, a) == held(st, ActionState::Done, port, a) + once(
                role.in_port() == port && addr == a,
            )
        }),
{
    lemma_freed(st.ports[role.in_port()].free, addr, a);
}

/// **No frame is lost or doubled when the pipeline decides**: frames move between the
/// work, the free pools and the TX ring, and each is held as often as before.
pub proof fn law_deciding_keeps_frames(
    st: ForwarderState,
    w: WorkState,
    d: Decision,
    port: int,
    a: u64,
)
    requires
        st.fits(w.role),
        0 <= port < st.ports.len(),
    ensures
        ({
            let (after, action) = st.deciding(w, d);
            held(after, action, port, a) == held(st, ActionState::Process(w), port, a)
        }),
{
    let (i, o) = (w.role.in_port(), w.role.out_port());
    let freed = st.freeing(o, w.tx);
    lemma_freed(st.ports[o].free, w.tx, a);
    lemma_freed(freed.ports[i].free, w.rx, a);
}

/// **No frame is lost or doubled when one is offered to a TX ring**: it is on the ring or
/// free again, and the frame that it was made from is free.
pub proof fn law_offering_keeps_frames(
    st: ForwarderState,
    s: SendingState,
    len: u32,
    queued: bool,
    port: int,
    a: u64,
)
    requires
        st.fits(s.role),
        0 <= s.port < st.ports.len(),
        0 <= port < st.ports.len(),
    ensures
        ({
            let before = held(st, ActionState::Send { sending: s, len }, port, a);
            let after = held(st.offered(s, queued), ActionState::Done, port, a);
            after == before - once(queued && s.port == port && s.addr == a)
        }),
{
    let i = s.role.in_port();
    lemma_freed(st.ports[s.port].free, s.addr, a);
    lemma_freed(st.ports[i].free, s.rx, a);
    lemma_freed(st.freeing(s.port, s.addr).ports[i].free, s.rx, a);
}

} // verus!
