//! What the forwarding loops do with frames, and when they end.

use vstd::prelude::*;
use crate::afxdp::{
    all_frames, clamped, no_run_stats, padded, summary_of, RunOpts, RunStats, XskState,
    NAT_GC_INTERVAL_MS, NAT_IDLE_TIMEOUT_MS,
};
use crate::afxdp::forwarder::{ActionState, ForwarderState, Role, SendingState, WorkState};
use crate::ethernet::{mac_at, mac_form};
use crate::laws::forwarding::bumped;
use crate::pipeline::Decision;
use crate::text::{decimal, hex4};
use crate::wire::be16;
use crate::tuple_of;

verus! {

/// **Frames come in on one port and are built on another**: the underlay's on the second
/// and the first, a tenant's of a switch on the first and the second, all others on the
/// first.
pub proof fn law_ports_of_a_role(role: Role, st: ForwarderState)
    ensures
        role.in_port() == 1 <==> role == Role::Underlay,
        role.in_port() == 0 || role.in_port() == 1,
        role.out_port() == 1 <==> role == Role::Tenant,
        role.out_port() == 0 || role.out_port() == 1,
        st.ports.len() == 2 ==> st.fits(role),
        st.ports.len() == 1 ==> (st.fits(role) <==> role != Role::Tenant && role != Role::Underlay),
        st.ports.len() != 1 && st.ports.len() != 2 ==> !st.fits(role),
{
}

/// Whether the port `b` is the port `a` with the frames `free` in its pool.
pub open spec fn with_pool(a: XskState, b: XskState, free: Seq<u64>) -> bool {
    b.free == free && b.fd == a.fd && b.frame_size == a.frame_size
}

/// Whether the ports of `b` are those of `a`, but for the port at `i`.
pub open spec fn same_but_port(a: ForwarderState, b: ForwarderState, i: int) -> bool {
    &&& b.ports.len() == a.ports.len()
    &&& forall|j: int| 0 <= j < a.ports.len() && j != i ==> #[trigger] b.ports[j] == a.ports[j]
}

/// **A received frame is counted with its bytes.** It is shown where that is asked for, the
/// first twenty of them; otherwise a frame is taken to build a packet in. Where there is
/// none, the received frame is free again and the drop is counted, unless the forwarder
/// only shows packets.
pub proof fn law_reception(st: ForwarderState, role: Role, addr: u64, len: u32)
    requires
        st.fits(role),
    ensures
        ({
            let (after, action) = st.receiving(role, addr, len);
            let (i, o) = (role.in_port(), role.out_port());
            let pool = st.ports[o].free;
            let lost = role != Role::Dump && pool.len() == 0;
            let n = bumped(st.stats.rx, true);
            &&& after.stats.rx == n
            &&& after.stats.bytes_in == (st.stats.bytes_in + len) % 0x1_0000_0000_0000_0000
            &&& after.stats.tx == st.stats.tx
            &&& after.stats.decapped == st.stats.decapped
            &&& after.stats.dropped == bumped(st.stats.dropped, lost && role != Role::Decap)
            &&& role == Role::Dump && n <= 20 ==> action == (ActionState::Show {
                seq: n as u64,
                addr,
                len,
            })
            &&& role == Role::Dump && n > 20 || lost ==> action == ActionState::Done
            &&& role == Role::Dump || lost ==> {
                &&& same_but_port(st, after, i)
                &&& with_pool(st.ports[i], after.ports[i], st.ports[i].free.push(addr))
            }
            &&& role != Role::Dump && !lost ==> {
                &&& action == ActionState::Process(WorkState { role, rx: addr, tx: pool.last() })
                &&& same_but_port(st, after, o)
                &&& with_pool(st.ports[o], after.ports[o], pool.drop_last())
            }
        }),
{
}

/// **What was decided is carried out, in full length.** A frame that is forwarded is sent
/// on the port it was built on; one that shows packets shows it. Nothing changes until
/// the TX ring has answered.
pub proof fn law_forwarding_is_carried_out(st: ForwarderState, w: WorkState, n: usize)
    requires
        st.fits(w.role),
        w.role != Role::Dump,
        n <= u32::MAX,
    ensures
        ({
            let (after, action) = st.deciding(w, Decision::Forward(n));
            let k = bumped(st.stats.decapped, true);
            &&& w.role != Role::Decap ==> after == st && action == (ActionState::Send {
                sending: SendingState {
                    role: w.role,
                    rx: w.rx,
                    port: if w.role == Role::Tenant {
                        1
                    } else {
                        0
                    },
                    addr: w.tx,
                },
                len: n as u32,
            })
            &&& w.role == Role::Decap ==> {
                &&& after.stats == (RunStats { decapped: k as u64, ..st.stats })
                &&& k <= 20 ==> action == (ActionState::Show {
                    seq: k as u64,
                    addr: w.tx,
                    len: n as u32,
                })
                &&& k > 20 ==> action == ActionState::Done
                &&& with_pool(
                    st.ports[0],
                    after.ports[0],
                    st.ports[0].free.push(w.tx).push(w.rx),
                )
                &&& same_but_port(st, after, 0)
            }
        }),
{
    if w.role == Role::Decap {
        let after = st.deciding(w, Decision::Forward(n)).0;
        assert(after.ports[0].free =~= st.ports[0].free.push(w.tx).push(w.rx));
    }
}

/// **A reply goes back where the request came from, in full length**: on the only port, or
/// by a copy on the tenant port of a switch; where that has no free frame it is dropped.
pub proof fn law_replies_go_back(st: ForwarderState, w: WorkState, n: usize)
    requires
        st.fits(w.role),
        n <= u32::MAX,
    ensures
        w.role == Role::Encap ==> st.deciding(w, Decision::Reply(n)) == (
            st,
            ActionState::Send {
                sending: SendingState { role: w.role, rx: w.rx, port: 0, addr: w.tx },
                len: n as u32,
            },
        ),
        w.role == Role::Tenant ==> {
            let (after, action) = st.deciding(w, Decision::Reply(n));
            let pool = st.ports[0].free;
            &&& with_pool(st.ports[1], after.ports[1], st.ports[1].free.push(w.tx))
            &&& after.ports.len() == 2
            &&& pool.len() > 0 ==> {
                &&& action == (ActionState::CopySend {
                    from: w.tx,
                    sending: SendingState { role: w.role, rx: w.rx, port: 0, addr: pool.last() },
                    len: n as u32,
                })
                &&& with_pool(st.ports[0], after.ports[0], pool.drop_last())
                &&& after.stats == st.stats
            }
            &&& pool.len() == 0 ==> {
                &&& action == ActionState::Done
                &&& with_pool(st.ports[0], after.ports[0], pool.push(w.rx))
                &&& after.stats.dropped == bumped(st.stats.dropped, true)
                &&& after.stats == (RunStats { dropped: after.stats.dropped, ..st.stats })
            }
        },
{
}

/// **Everything else is discarded**: both frames are free again, and the drop is counted
/// unless the forwarder only shows packets.
pub proof fn law_the_rest_is_discarded(st: ForwarderState, w: WorkState, d: Decision)
    requires
        st.fits(w.role),
        w.role == Role::Dump || d is Drop || d is Pass || d is Reply && (w.role == Role::Decap
            || w.role == Role::Underlay),
    ensures
        ({
            let (after, action) = st.deciding(w, d);
            let (i, o) = (w.role.in_port(), w.role.out_port());
            &&& action == ActionState::Done
            &&& after.stats.dropped == bumped(st.stats.dropped, w.role != Role::Decap)
            &&& after.stats == (RunStats { dropped: after.stats.dropped, ..st.stats })
            &&& after.ports.len() == st.ports.len()
            &&& i == o ==> {
                &&& with_pool(
                    st.ports[i],
                    after.ports[i],
                    st.ports[i].free.push(w.tx).push(w.rx),
                )
                &&& same_but_port(st, after, i)
            }
            &&& i != o ==> {
                &&& with_pool(st.ports[o], after.ports[o], st.ports[o].free.push(w.tx))
                &&& with_pool(st.ports[i], after.ports[i], st.ports[i].free.push(w.rx))
            }
        }),
{
}

/// **A frame that a TX ring took is counted as sent**, and as delivered where it came from
/// the underlay; it is free again only when the kernel is done with it. One that the ring
/// did not take is free at once, and counted as dropped. The received frame is free.
pub proof fn law_transmission(st: ForwarderState, s: SendingState, queued: bool)
    requires
        st.fits(s.role),
        0 <= s.port < st.ports.len(),
    ensures
        ({
            let after = st.offered(s, queued);
            let i = s.role.in_port();
            &&& after.stats.tx == bumped(st.stats.tx, queued)
            &&& after.stats.dropped == bumped(st.stats.dropped, !queued)
            &&& after.stats.decapped == bumped(
                st.stats.decapped,
                queued && s.role == Role::Underlay,
            )
            &&& after.stats.rx == st.stats.rx
            &&& after.stats.bytes_in == st.stats.bytes_in
            &&& after.ports.len() == st.ports.len()
            &&& queued ==> {
                &&& with_pool(st.ports[i], after.ports[i], st.ports[i].free.push(s.rx))
                &&& same_but_port(st, after, i)
            }
            &&& !queued && s.port == i ==> {
                &&& with_pool(
                    st.ports[i],
                    after.ports[i],
                    st.ports[i].free.push(s.addr).push(s.rx),
                )
                &&& same_but_port(st, after, i)
            }
            &&& !queued && s.port != i ==> {
                &&& with_pool(st.ports[i], after.ports[i], st.ports[i].free.push(s.rx))
                &&& with_pool(
                    st.ports[s.port],
                    after.ports[s.port],
                    st.ports[s.port].free.push(s.addr),
                )
            }
        }),
{
}

/// **The pool of a port**: frames are taken from and returned to its end, up to as many as
/// are wanted are offered to the kernel, and it takes from the first one offered.
pub proof fn law_pool(st: XskState, addr: u64, addrs: Seq<u64>, want: u32, pushed: u32)
    requires
        pushed <= st.offer(want),
    ensures
        st.offer(want) == if want < st.free.len() {
            want as int
        } else {
            st.free.len() as int
        },
        st.offered(want).len() == st.offer(want),
        forall|i: int|
            0 <= i < st.offer(want) ==> #[trigger] st.offered(want)[i] == st.free[st.free.len()
                - st.offer(want) + i],
        with_pool(st, st.with_free(addr), st.free.push(addr)),
        st.free.len() > 0 ==> with_pool(st, st.taken(), st.free.drop_last()),
        with_pool(st, st.after_completion(addrs), st.free + addrs),
        st.after_fill(want, pushed).fd == st.fd,
        st.after_fill(want, pushed).frame_size == st.frame_size,
        st.after_fill(want, pushed).free.len() == st.free.len() - pushed,
        forall|i: int|
            0 <= i < st.free.len() - pushed ==> #[trigger] st.after_fill(want, pushed).free[i]
                == if i < st.free.len() - st.offer(want) {
                st.free[i]
            } else {
                st.free[i + pushed]
            },
{
}

/// **The frames of a UMEM stand one behind the other**, from its start.
pub proof fn law_frames_of_a_umem(n: u32, size: u32, i: int)
    requires
        0 <= i < n,
    ensures
        all_frames(n, size).len() == n,
        all_frames(n, size)[i] == i * size,
{
    assert(0 <= i * size <= 0xffff_ffff * 0xffff_ffff) by (nonlinear_arith)
        requires
            0 <= i <= 0xffff_ffff,
            size <= 0xffff_ffff,
    ;
}

/// **Received lengths are bounded by the frame size**, and not changed where they are.
pub proof fn law_lengths_are_bounded(lens: Seq<u32>, n: nat, limit: u32, i: int)
    requires
        n <= lens.len(),
        0 <= i < lens.len(),
    ensures
        clamped(lens, n, limit).len() == lens.len(),
        i >= n || lens[i] <= limit ==> clamped(lens, n, limit)[i] == lens[i],
        i < n && lens[i] > limit ==> clamped(lens, n, limit)[i] == limit,
{
}

/// **A loop ends when it is told to**, or has received its packets, or its time is up; and
/// not before.
pub proof fn law_when_a_loop_ends(opts: RunOpts, rx: u64, stop: bool, secs: u64)
    ensures
        stop ==> opts.is_over(rx, stop, secs),
        opts.max_packets matches Some(m) && rx >= m ==> opts.is_over(rx, stop, secs),
        opts.max_secs matches Some(m) && secs >= m ==> opts.is_over(rx, stop, secs),
        !stop && (opts.max_packets matches Some(m) ==> rx < m) && (opts.max_secs matches Some(m)
            ==> secs < m) ==> !opts.is_over(rx, stop, secs),
        no_run_stats() == (RunStats { rx: 0, tx: 0, dropped: 0, decapped: 0, bytes_in: 0 }),
{
}

/// **Idle bindings are looked for every second** and given up after two minutes.
pub proof fn law_upkeep()
    ensures
        NAT_GC_INTERVAL_MS == 1000,
        NAT_IDLE_TIMEOUT_MS == 2 * 60 * 1000,
{
}

/// **A summary** names the number of the frame, padded to four, its length, its source and
/// its destination, and then its 5-tuple or else its type.
pub proof fn law_summary(frame: Seq<u8>, seq: u64)
    ensures
        padded(decimal(seq as nat), 4).len() >= 4,
        padded(decimal(seq as nat), 4).take(decimal(seq as nat).len() as int) == decimal(
            seq as nat,
        ),
        forall|i: int|
            decimal(seq as nat).len() <= i < padded(decimal(seq as nat), 4).len() ==> #[trigger] padded(
                decimal(seq as nat),
                4,
            )[i] == ' ',
        ({
            let head = "#"@ + padded(decimal(seq as nat), 4) + " "@ + decimal(frame.len())
                + " bytes  "@;
            let text = summary_of(frame, seq);
            &&& frame.len() < 14 ==> text == head + "<unparsable>"@
            &&& frame.len() >= 14 ==> {
                let ends = head + mac_form(frame.subrange(6, 12)) + " -> "@ + mac_form(
                    frame.take(6),
                ) + "  "@;
                match tuple_of(frame.skip(14)) {
                    Some(t) => text == ends + t.text(),
                    None => text == ends + ("ethertype=0x"@ + hex4(be16(frame, 12))),
                }
            }
        }),
{
    let d = decimal(seq as nat);
    assert(padded(d, 4).take(d.len() as int) =~= d);
    if frame.len() >= 14 {
        assert(mac_at(frame, 6) =~= frame.subrange(6, 12));
        assert(mac_at(frame, 0) =~= frame.take(6));
        assert(crate::wire::tail(frame, 14) =~= frame.skip(14));
    }
}

} // verus!
