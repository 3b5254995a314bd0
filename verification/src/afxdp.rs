//! Frame accounting and the decisions of the forwarding loops over AF_XDP sockets.
//!
//! A socket shares a memory region, the UMEM, with the kernel; the region is cut into
//! frames. Which frames belong to user space is kept here: a free list of frame
//! addresses is split between the FILL ring (for RX) and TX, and completed TX frames
//! return to it. The rings themselves, the memory and the clock belong to the caller,
//! which asks these functions what to do next and reports what came of it.

use vstd::prelude::*;
use crate::ethernet::{mac_at, mac_form, EthFrame, ETH_HDR_LEN};
use crate::five_tuple_of;
use crate::text::{decimal, hex4, push_decimal, push_hex4};
use crate::tuple_of;
use crate::wire::{be16, tail};

pub mod forwarder;

verus! {

/// Evict NAT bindings idle longer than this (ms). Conntrack-style idle timeout;
/// without periodic eviction the SNAT port pool and conntrack tables never reclaim.
pub const NAT_IDLE_TIMEOUT_MS: u64 = 120_000;

/// How often the forwarding loops run NAT garbage collection (ms).
pub const NAT_GC_INTERVAL_MS: u64 = 1_000;

/// How many frames are shown in the modes that print frames.
pub const MAX_SHOWN: u64 = 20;

/// XDP attach mode.
#[derive(Clone, Copy, Debug, PartialEq, Eq, Structural)]
pub enum XdpMode {
    /// Let libxdp choose (native, falling back to generic).
    Auto,
    /// Force generic/SKB mode (works on any interface, incl. quirky veth setups).
    Skb,
    /// Force native/driver mode.
    Drv,
}

impl XdpMode {
    /// The number that stands for the mode where the socket is opened.
    #[must_use]
    pub fn code(self) -> (r: i32)
        ensures
            r == match self {
                XdpMode::Auto => 0,
                XdpMode::Skb => 1,
                XdpMode::Drv => 2int,
            },
    {
        match self {
            XdpMode::Auto => 0,
            XdpMode::Skb => 1,
            XdpMode::Drv => 2,
        }
    }
}

/// UMEM + ring sizing.
#[derive(Clone, Copy, Debug)]
pub struct XskConfig {
    pub n_frames: u32,
    pub frame_size: u32,
    pub fill_size: u32,
    pub comp_size: u32,
    pub rx_size: u32,
    pub tx_size: u32,
    pub xdp_mode: XdpMode,
}

impl Default for XskConfig {
    fn default() -> (r: Self)
        ensures
            r == (XskConfig {
                n_frames: 4096,
                frame_size: 2048,
                fill_size: 2048,
                comp_size: 2048,
                rx_size: 2048,
                tx_size: 2048,
                xdp_mode: XdpMode::Auto,
            }),
    {
        XskConfig {
            n_frames: 4096,
            frame_size: 2048,
            fill_size: 2048,
            comp_size: 2048,
            rx_size: 2048,
            tx_size: 2048,
            xdp_mode: XdpMode::Auto,
        }
    }
}

/// A bound AF_XDP socket: its descriptor and its free-frame pool.
pub struct XskSocket {
    frame_size: u32,
    fd: i32,
    /// Frame addresses currently owned by user space (available for TX or refill).
    free: Vec<u64>,
}

/// What a socket holds.
#[verifier::ext_equal]
pub struct XskState {
    pub frame_size: u32,
    pub fd: i32,
    pub free: Seq<u64>,
}

impl View for XskSocket {
    type V = XskState;

    closed spec fn view(&self) -> XskState {
        XskState { frame_size: self.frame_size, fd: self.fd, free: self.free@ }
    }
}

/// The addresses of all the frames of a UMEM.
pub open spec fn all_frames(n_frames: u32, frame_size: u32) -> Seq<u64> {
    Seq::new(n_frames as nat, |i: int| (i * frame_size) as u64)
}

impl XskState {
    /// How many frames to offer when `want` are asked for.
    pub open spec fn offer(self, want: u32) -> nat {
        if want <= self.free.len() {
            want as nat
        } else {
            self.free.len()
        }
    }

    /// The port with `addr` returned to its free pool.
    pub open spec fn with_free(self, addr: u64) -> XskState {
        XskState { free: self.free.push(addr), ..self }
    }

    /// The port with a frame taken from its free pool.
    pub open spec fn taken(self) -> XskState {
        XskState { free: self.free.drop_last(), ..self }
    }

    /// The frames that are offered when `want` are asked for: the last ones.
    pub open spec fn offered(self, want: u32) -> Seq<u64> {
        self.free.skip(self.free.len() - self.offer(want))
    }

    /// The port after its FILL ring took the first `pushed` of the frames that it was
    /// offered.
    pub open spec fn after_fill(self, want: u32, pushed: u32) -> XskState {
        XskState {
            free: self.free.take(self.free.len() - self.offer(want)) + self.offered(want).skip(
                pushed as int,
            ),
            ..self
        }
    }

    /// The port after the kernel has sent the TX frames `addrs`.
    pub open spec fn after_completion(self, addrs: Seq<u64>) -> XskState {
        XskState { free: self.free + addrs, ..self }
    }
}

impl XskSocket {
    /// A socket that was just opened. All frames start free.
    #[must_use]
    pub fn new(fd: i32, cfg: &XskConfig) -> (r: Self)
        ensures
            r@ == (XskState {
                frame_size: cfg.frame_size,
                fd,
                free: all_frames(cfg.n_frames, cfg.frame_size),
            }),
    {
        let n: u32 = cfg.n_frames;
        let size: u32 = cfg.frame_size;
        let mut free: Vec<u64> = Vec::new();
        let mut i: u32 = 0;
        while i < n
            invariant
                i <= n,
                free@ == all_frames(n, size).take(i as int),
            decreases n - i,
        {
            assert(i * size <= 0xffff_ffff * 0xffff_ffff) by (nonlinear_arith)
                requires
                    i <= 0xffff_ffff,
                    size <= 0xffff_ffff,
            ;
            free.push(i as u64 * size as u64);
            i = i + 1;
            assert(free@ =~= all_frames(n, size).take(i as int));
        }
        assert(all_frames(n, size).take(n as int) =~= all_frames(n, size));
        XskSocket { frame_size: size, fd, free }
    }

    #[must_use]
    pub fn fd(&self) -> (r: i32)
        ensures
            r == self@.fd,
    {
        self.fd
    }

    #[must_use]
    pub fn frame_size(&self) -> (r: u32)
        ensures
            r == self@.frame_size,
    {
        self.frame_size
    }

    #[must_use]
    pub fn free_frames(&self) -> (r: usize)
        ensures
            r == self@.free.len(),
    {
        self.free.len()
    }

    /// How many free frames are offered when `want` are asked for.
    fn offer_size(&self, want: u32) -> (r: usize)
        ensures
            r == self@.offer(want),
    {
        let n: usize = self.free.len();
        if (want as u64) < n as u64 {
            want as usize
        } else {
            n
        }
    }

    /// Up to `want` free frames, to be moved into the FILL ring for the kernel to fill.
    #[must_use]
    pub fn to_fill(&self, want: u32) -> (r: &[u64])
        ensures
            r@ == self@.offered(want),
    {
        let n: usize = self.free.len();
        let take: usize = self.offer_size(want);
        let r: &[u64] = &self.free.as_slice()[n - take..n];
        assert(r@ =~= self@.offered(want));
        r
    }

    /// Of the frames that [`XskSocket::to_fill`] gives for `want`, the FILL ring took the
    /// first `pushed`. They belong to the kernel now; the others stay free.
    pub fn filled(&mut self, want: u32, pushed: u32)
        requires
            pushed <= old(self)@.offer(want),
        ensures
            final(self)@ == old(self)@.after_fill(want, pushed),
    {
        let ghost was = self@.free;
        let n: usize = self.free.len();
        let take: usize = self.offer_size(want);
        let start: usize = n - take;
        let gone: usize = pushed as usize;
        let mut i: usize = start;
        while i < n - gone
            invariant
                start <= i <= n - gone,
                start + gone <= n,
                n == was.len(),
                self@ == (XskState { free: self.free@, ..old(self)@ }),
                self.free@ == was.take(start as int) + was.subrange(start + gone, i + gone)
                    + was.skip(i as int),
            decreases n - i,
        {
            let addr: u64 = self.free[i + gone];
            self.free.set(i, addr);
            i = i + 1;
            assert(self.free@ =~= was.take(start as int) + was.subrange(start + gone, i + gone)
                + was.skip(i as int));
        }
        self.free.truncate(n - gone);
        assert(self@.free =~= old(self)@.after_fill(want, pushed).free);
    }

    /// Bounds the lengths of the first `n` received frames to the frame size, so that a
    /// length never exceeds the frame slot.
    pub fn clamp(&self, lens: &mut [u32], n: usize)
        requires
            n <= old(lens)@.len(),
        ensures
            final(lens)@ == clamped(old(lens)@, n as nat, self@.frame_size),
    {
        let mut i: usize = 0;
        while i < n
            invariant
                i <= n,
                n <= old(lens)@.len(),
                lens@ == clamped(old(lens)@, i as nat, self.frame_size),
            decreases n - i,
        {
            if lens[i] > self.frame_size {
                lens[i] = self.frame_size;
            }
            i = i + 1;
            assert(lens@ =~= clamped(old(lens)@, i as nat, self.frame_size));
        }
        assert(lens@ =~= clamped(old(lens)@, n as nat, self.frame_size));
    }

    /// Take a free frame to build a TX packet in.
    pub fn alloc_tx(&mut self) -> (r: Option<u64>)
        ensures
            old(self)@.free.len() == 0 ==> r is None && final(self)@ == old(self)@,
            old(self)@.free.len() > 0 ==> r == Some(old(self)@.free.last()) && final(self)@ == old(
                self,
            )@.taken(),
    {
        self.free.pop()
    }

    /// Return a frame to the free pool (dropped packet, or reclaimed RX frame).
    pub fn recycle(&mut self, addr: u64)
        ensures
            final(self)@ == old(self)@.with_free(addr),
    {
        self.free.push(addr);
    }

    /// The kernel has sent the TX frames `addrs`; they return to the free pool.
    pub fn completed(&mut self, addrs: &[u64])
        ensures
            final(self)@ == old(self)@.after_completion(addrs@),
    {
        let n: usize = addrs.len();
        let mut i: usize = 0;
        while i < n
            invariant
                n == addrs@.len(),
                i <= n,
                self@ == (XskState {
                    free: old(self)@.free + addrs@.take(i as int),
                    ..old(self)@
                }),
            decreases n - i,
        {
            self.free.push(addrs[i]);
            i = i + 1;
            assert(self@.free =~= old(self)@.free + addrs@.take(i as int));
        }
        assert(addrs@.take(n as int) =~= addrs@);
    }
}

/// `lens` with its first `n` entries bounded by `limit`.
pub open spec fn clamped(lens: Seq<u32>, n: nat, limit: u32) -> Seq<u32> {
    Seq::new(
        lens.len(),
        |i: int|
            if i < n && lens[i] > limit {
                limit
            } else {
                lens[i]
            },
    )
}

/// What the forwarder does with each received frame.
#[derive(Clone, Copy, Debug, PartialEq, Eq, Structural)]
pub enum Mode {
    /// Parse and print each frame — proves frames reach user space via AF_XDP.
    Dump,
    /// Treat each frame as a tenant inner frame; encapsulate and transmit it.
    Encap,
    /// Treat each frame as overlay traffic; decapsulate and report the inner packet.
    Decap,
}

/// Loop controls.
#[derive(Clone, Copy, Debug)]
pub struct RunOpts {
    pub mode: Mode,
    pub max_packets: Option<u64>,
    pub max_secs: Option<u64>,
    pub batch: u32,
}

impl RunOpts {
    /// Whether the loop ends: it was asked to, or has reached one of its limits.
    pub open spec fn is_over(self, rx: u64, stop: bool, secs: u64) -> bool {
        ||| stop
        ||| self.max_packets matches Some(m) && rx >= m
        ||| self.max_secs matches Some(s) && secs >= s
    }

    /// The number of frames to take at once: at least one.
    #[must_use]
    pub fn batch_size(&self) -> (r: u32)
        ensures
            r == if self.batch == 0 {
                1
            } else {
                self.batch
            },
    {
        if self.batch == 0 {
            1
        } else {
            self.batch
        }
    }
}

/// Counters returned when the loop exits. They wrap.
#[derive(Clone, Copy, Debug)]
pub struct RunStats {
    pub rx: u64,
    pub tx: u64,
    pub dropped: u64,
    pub decapped: u64,
    pub bytes_in: u64,
}

/// Counters at their start.
pub open spec fn no_run_stats() -> RunStats {
    RunStats { rx: 0, tx: 0, dropped: 0, decapped: 0, bytes_in: 0 }
}

impl Default for RunStats {
    fn default() -> (r: Self)
        ensures
            r == no_run_stats(),
    {
        RunStats { rx: 0, tx: 0, dropped: 0, decapped: 0, bytes_in: 0 }
    }
}

/// What the loop does before it waits for frames.
#[derive(Clone, Copy, Debug, PartialEq, Eq, Structural)]
pub enum Tick {
    /// Leave the loop.
    Stop,
    /// Reclaim idle NAT bindings, report, and go on.
    Collect,
    /// Go on.
    Wait,
}

/// What is done at the start of a round: `secs` whole seconds after the start and
/// `since_ms` whole milliseconds after the last collection.
#[must_use]
pub fn next_tick(opts: &RunOpts, stats: &RunStats, stop: bool, secs: u64, since_ms: u64) -> (r: Tick)
    ensures
        r == if opts.is_over(stats.rx, stop, secs) {
            Tick::Stop
        } else if since_ms >= NAT_GC_INTERVAL_MS {
            Tick::Collect
        } else {
            Tick::Wait
        },
{
    if stop {
        return Tick::Stop;
    }
    if let Some(m) = opts.max_packets {
        if stats.rx >= m {
            return Tick::Stop;
        }
    }
    if let Some(s) = opts.max_secs {
        if secs >= s {
            return Tick::Stop;
        }
    }
    if since_ms >= NAT_GC_INTERVAL_MS {
        Tick::Collect
    } else {
        Tick::Wait
    }
}

/// `s` padded with spaces to the width `n`.
pub open spec fn padded(s: Seq<char>, n: nat) -> Seq<char> {
    if s.len() < n {
        s + Seq::new((n - s.len()) as nat, |i: int| ' ')
    } else {
        s
    }
}

/// The one-line summary of a frame.
pub open spec fn summary_of(frame: Seq<u8>, seq: u64) -> Seq<char> {
    let head = "#"@ + padded(decimal(seq as nat), 4) + " "@ + decimal(frame.len()) + " bytes  "@;
    if frame.len() < ETH_HDR_LEN {
        head + "<unparsable>"@
    } else {
        head + mac_form(mac_at(frame, 6)) + " -> "@ + mac_form(mac_at(frame, 0)) + "  "@ + match tuple_of(
            tail(frame, ETH_HDR_LEN as int),
        ) {
            Some(t) => t.text(),
            None => "ethertype=0x"@ + hex4(be16(frame, 12)),
        }
    }
}

fn push_padded(out: &mut String, n: u64)
    ensures
        final(out)@ == old(out)@ + padded(decimal(n as nat), 4),
{
    let ghost was = out@;
    push_decimal(out, n);
    let mut width: u64 = if n < 10 {
        1
    } else if n < 100 {
        2
    } else if n < 1000 {
        3
    } else {
        4
    };
    proof {
        reveal_strlit(" ");
        reveal_with_fuel(decimal, 4);
        if n >= 1000 {
            lemma_decimal_len(n as nat);
        }
    }
    let ghost digits = decimal(n as nat);
    let ghost start = width;
    assert(Seq::new(0, |i: int| ' ') =~= Seq::<char>::empty());
    assert(out@ =~= was + digits + Seq::new(0, |i: int| ' '));
    while width < 4
        invariant
            1 <= start <= width <= 4,
            out@ == was + digits + Seq::new((width - start) as nat, |i: int| ' '),
            " "@ == seq![' '],
        decreases 4 - width,
    {
        out.append(" ");
        width = width + 1;
        assert(out@ =~= was + digits + Seq::new((width - start) as nat, |i: int| ' '));
    }
    assert(out@ =~= was + padded(digits, 4));
}

proof fn lemma_decimal_len(n: nat)
    requires
        n >= 1000,
    ensures
        decimal(n).len() >= 4,
    decreases n,
{
    reveal_with_fuel(decimal, 4);
    if n >= 10_000 {
        lemma_decimal_len(n / 10);
    }
}

/// A one-line summary of a frame (used by dump/decap modes).
#[must_use]
pub fn frame_summary(frame: &[u8], seq: u64) -> (r: String)
    ensures
        r@ == summary_of(frame@, seq),
{
    let mut out: String = String::new();
    out.append("#");
    push_padded(&mut out, seq);
    out.append(" ");
    push_decimal(&mut out, frame.len() as u64);
    out.append(" bytes  ");
    let ghost head = "#"@ + padded(decimal(seq as nat), 4) + " "@ + decimal(frame@.len())
        + " bytes  "@;
    assert(out@ =~= head);
    match EthFrame::parse(frame) {
        Ok(eth) => {
            out.append(eth.src().to_string().as_str());
            out.append(" -> ");
            out.append(eth.dst().to_string().as_str());
            out.append("  ");
            match five_tuple_of(eth.payload()) {
                Some(t) => {
                    out.append(t.to_string().as_str());
                },
                None => {
                    out.append("ethertype=0x");
                    push_hex4(&mut out, eth.ethertype());
                },
            }
        },
        Err(_) => {
            out.append("<unparsable>");
        },
    }
    assert(out@ =~= summary_of(frame@, seq));
    out
}

/// **Frames do not overlap.** Two frames of a UMEM are at least a frame size apart, and
/// each lies within the UMEM.
pub proof fn law_frames_do_not_overlap(n_frames: u32, frame_size: u32, i: int, j: int)
    requires
        0 <= i < j < n_frames,
    ensures
        all_frames(n_frames, frame_size)[i] + frame_size <= all_frames(n_frames, frame_size)[j],
        all_frames(n_frames, frame_size)[j] + frame_size <= n_frames * frame_size,
{
    let size = frame_size as int;
    assert(0 <= i * size && i * size + size <= j * size && j * size + size <= n_frames * size
        && n_frames * size <= 0xffff_ffff * 0xffff_ffff) by (nonlinear_arith)
        requires
            0 <= i < j < n_frames,
            0 <= size <= 0xffff_ffff,
            n_frames <= 0xffff_ffff,
    ;
}

/// **At the start no frame is free twice.**
pub proof fn law_frames_start_distinct(n_frames: u32, frame_size: u32)
    requires
        frame_size > 0,
    ensures
        all_frames(n_frames, frame_size).no_duplicates(),
{
    let all = all_frames(n_frames, frame_size);
    assert forall|i: int, j: int| 0 <= i < all.len() && 0 <= j < all.len() && i != j implies all[i]
        != all[j] by {
        if i < j {
            law_frames_do_not_overlap(n_frames, frame_size, i, j);
        } else {
            law_frames_do_not_overlap(n_frames, frame_size, j, i);
        }
    }
}

/// **A frame that was taken is not free**, and the others are still distinct.
pub proof fn law_taken_frame_is_gone(st: XskState)
    requires
        st.free.no_duplicates(),
        st.free.len() > 0,
    ensures
        !st.taken().free.contains(st.free.last()),
        st.taken().free.no_duplicates(),
{
}

/// **A frame that is not free is not handed out until it is returned**: taking, refilling
/// and returning other frames does not make it free.
pub proof fn law_gone_frame_stays_gone(
    st: XskState,
    a: u64,
    b: u64,
    addrs: Seq<u64>,
    want: u32,
    pushed: u32,
)
    requires
        !st.free.contains(a),
        a != b,
        !addrs.contains(a),
        pushed <= st.offer(want),
    ensures
        st.free.len() > 0 ==> st.free.last() != a,
        st.free.len() > 0 ==> !st.taken().free.contains(a),
        !st.with_free(b).free.contains(a),
        !st.after_fill(want, pushed).free.contains(a),
        !st.after_completion(addrs).free.contains(a),
{
    let filled = st.after_fill(want, pushed).free;
    let n = st.free.len() - st.offer(want);
    assert forall|i: int| 0 <= i < filled.len() implies filled[i] != a by {
        if i < n {
            assert(filled[i] == st.free[i]);
        } else {
            assert(filled[i] == st.free[i + pushed]);
        }
    }
    let done = st.after_completion(addrs).free;
    assert forall|i: int| 0 <= i < done.len() implies done[i] != a by {
        if i >= st.free.len() {
            assert(done[i] == addrs[i - st.free.len()]);
        }
    }
}

/// **Refilling loses and doubles no frame.** However many of the offered frames the FILL
/// ring takes, from the first on, what it took and what stays free are the frames that
/// were free.
pub proof fn law_refill_keeps_frames(st: XskState, want: u32, pushed: u32)
    requires
        pushed <= st.offer(want),
    ensures
        ({
            let kept = st.after_fill(want, pushed).free;
            let taken = st.offered(want).take(pushed as int);
            &&& kept.len() + taken.len() == st.free.len()
            &&& kept.to_multiset().add(taken.to_multiset()) == st.free.to_multiset()
        }),
{
    let head = st.free.take(st.free.len() - st.offer(want));
    let offered = st.offered(want);
    let (taken, left) = (offered.take(pushed as int), offered.skip(pushed as int));
    assert(offered =~= taken + left);
    assert(st.free =~= head + offered);
    vstd::seq_lib::lemma_multiset_commutative(taken, left);
    vstd::seq_lib::lemma_multiset_commutative(head, offered);
    vstd::seq_lib::lemma_multiset_commutative(head, left);
    assert(st.after_fill(want, pushed).free == head + left);
    assert((head + left).to_multiset().add(taken.to_multiset()) =~= st.free.to_multiset());
}

} // verus!
