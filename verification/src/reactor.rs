//! The reactor: the dispatch logic that turns each completion into the
//! next submitted operation. It owns the submission ring, the completion
//! ring and the connection table; the caller performs the actual socket
//! work — it takes descriptors out of the submission ring, carries them
//! out, and pushes a completion for each one — and closes the socket
//! handles the reactor hands back. Every decision the reactor makes is a
//! function of its state and the completion alone, written down in
//! `spec_dispatch`.

use vstd::prelude::*;

use crate::classify::{classify, spec_classify, ResponseKind};
use crate::ring::{Cqe, Ring, Sqe, OP_ACCEPT, OP_RECV, OP_SEND};
use crate::table::{spec_acquire, spec_release, ConnTable, TableModel};
use crate::token::{decode_token, encode_token, spec_encode_token, spec_token_kind, spec_token_slot, OpKind};

verus! {

/// The reactor's whole state, as the model sees it: the connection
/// table, the outstanding entries and capacity of each ring, and the
/// listening socket handle.
#[verifier::ext_equal]
pub struct ReactorModel {
    pub table: TableModel,
    pub buf_size: nat,
    pub sq: Seq<Sqe>,
    pub sq_cap: nat,
    pub cq: Seq<Cqe>,
    pub cq_cap: nat,
    pub listen_fd: i32,
}

/// The descriptor of a fresh accept operation. Accept tokens carry no
/// real slot: a slot is acquired only after the accept has succeeded.
pub open spec fn spec_accept_sqe(listen_fd: i32) -> Sqe {
    Sqe {
        opcode: OP_ACCEPT,
        fd: listen_fd,
        len: 0,
        user_data: spec_encode_token(OpKind::Accept, 0),
        resp: None,
    }
}

/// The descriptor of a receive into a slot's buffer.
pub open spec fn spec_recv_sqe(fd: i32, buf_size: u32, slot: u32) -> Sqe {
    Sqe {
        opcode: OP_RECV,
        fd,
        len: buf_size,
        user_data: spec_encode_token(OpKind::Recv, slot),
        resp: None,
    }
}

/// The descriptor of a send of one canned response on a slot's socket.
pub open spec fn spec_send_sqe(fd: i32, k: ResponseKind, slot: u32) -> Sqe {
    Sqe {
        opcode: OP_SEND,
        fd,
        len: 0,
        user_data: spec_encode_token(OpKind::Send, slot),
        resp: Some(k),
    }
}

/// Appends an entry to a bounded queue when there is room; reports
/// whether it fit.
pub open spec fn spec_push_if_room(q: Seq<Sqe>, cap: nat, e: Sqe) -> (Seq<Sqe>, bool) {
    if q.len() < cap {
        (q.push(e), true)
    } else {
        (q, false)
    }
}

/// Releasing a slot at the model level: the new table, and the socket
/// handle the caller must close (if the slot was still active).
pub open spec fn spec_release_close(t: TableModel, slot: int) -> (TableModel, Option<int>) {
    if 0 <= slot < t.capacity() && t.slots[slot].active {
        (spec_release(t, slot), Some(t.slots[slot].fd))
    } else {
        (spec_release(t, slot), None)
    }
}

/// What one completion does to the reactor: the next state, and the
/// socket handle the caller must now close, if any.
///
/// - An unrecognized token kind is ignored.
/// - An accept completion always queues a replacement accept first, so
///   the accept pipeline never drains. A non-negative result is a new
///   socket: it gets a slot and a receive, or — when the pool is
///   exhausted, or the receive does not fit in the submission ring — it
///   is closed again.
/// - A receive completion with a positive result classifies the filled
///   part of the slot's buffer and queues the canned response; a
///   non-positive result (peer closed, or error), or no room for the
///   send, releases the slot.
/// - A send completion with a positive result queues the next receive on
///   the same slot — the connection is kept alive — and otherwise, or
///   when that receive does not fit, the slot is released.
pub open spec fn spec_dispatch(m: ReactorModel, cqe: Cqe) -> (ReactorModel, Option<int>) {
    let slot = spec_token_slot(cqe.user_data) as int;
    match spec_token_kind(cqe.user_data) {
        None => (m, None),
        Some(OpKind::Accept) => {
            let (sq1, _fit) = spec_push_if_room(m.sq, m.sq_cap, spec_accept_sqe(m.listen_fd));
            let m1 = ReactorModel { sq: sq1, ..m };
            if cqe.res >= 0 {
                let (t2, got) = spec_acquire(m1.table, cqe.res as int);
                match got {
                    Some(i) => {
                        let m2 = ReactorModel { table: t2, ..m1 };
                        let sqe = spec_recv_sqe(cqe.res, m.buf_size as u32, i as u32);
                        let (sq3, fit) = spec_push_if_room(m2.sq, m2.sq_cap, sqe);
                        if fit {
                            (ReactorModel { sq: sq3, ..m2 }, None)
                        } else {
                            let (t3, close) = spec_release_close(t2, i);
                            (ReactorModel { table: t3, ..m2 }, close)
                        }
                    },
                    None => (m1, Some(cqe.res as int)),
                }
            } else {
                (m1, None)
            }
        },
        Some(OpKind::Recv) => {
            if !(0 <= slot < m.table.capacity()) {
                (m, None)
            } else if cqe.res <= 0 {
                let (t1, close) = spec_release_close(m.table, slot);
                (ReactorModel { table: t1, ..m }, close)
            } else {
                let n: int = if cqe.res as int <= m.buf_size as int {
                    cqe.res as int
                } else {
                    m.buf_size as int
                };
                let k = spec_classify(m.table.slots[slot].buf.take(n));
                let sqe = spec_send_sqe(m.table.slots[slot].fd as i32, k, slot as u32);
                let (sq1, fit) = spec_push_if_room(m.sq, m.sq_cap, sqe);
                if fit {
                    (ReactorModel { sq: sq1, ..m }, None)
                } else {
                    let (t1, close) = spec_release_close(m.table, slot);
                    (ReactorModel { table: t1, ..m }, close)
                }
            }
        },
        Some(OpKind::Send) => {
            if !(0 <= slot < m.table.capacity()) {
                (m, None)
            } else if cqe.res > 0 {
                let sqe = spec_recv_sqe(m.table.slots[slot].fd as i32, m.buf_size as u32, slot as u32);
                let (sq1, fit) = spec_push_if_room(m.sq, m.sq_cap, sqe);
                if fit {
                    (ReactorModel { sq: sq1, ..m }, None)
                } else {
                    let (t1, close) = spec_release_close(m.table, slot);
                    (ReactorModel { table: t1, ..m }, close)
                }
            } else {
                let (t1, close) = spec_release_close(m.table, slot);
                (ReactorModel { table: t1, ..m }, close)
            }
        },
    }
}

/// Draining: every queued completion dispatched in order, oldest first,
/// with the socket handles to close collected in dispatch order.
pub open spec fn spec_drain(m: ReactorModel) -> (ReactorModel, Seq<int>)
    decreases m.cq.len(),
{
    if m.cq.len() == 0 {
        (m, Seq::empty())
    } else {
        let cqe = m.cq[0];
        let m1 = ReactorModel { cq: m.cq.drop_first(), ..m };
        let (m2, close) = spec_dispatch(m1, cqe);
        let (m3, closes) = spec_drain(m2);
        match close {
            Some(fd) => (m3, seq![fd] + closes),
            None => (m3, closes),
        }
    }
}

/// A receive completion that brought data, dispatched while the
/// submission ring has room, queues exactly one send for that slot —
/// carrying the response the filled part of the slot's buffer
/// classifies to, the hello response for a root-path request — and
/// nothing else happens: the table is untouched and no socket is
/// closed. (With the ring full, `spec_dispatch` releases the slot
/// instead.)
pub proof fn lemma_recv_completion_queues_response(m: ReactorModel, cqe: Cqe)
    requires
        spec_token_kind(cqe.user_data) == Some(OpKind::Recv),
        0 <= spec_token_slot(cqe.user_data) < m.table.capacity(),
        cqe.res > 0,
        m.sq.len() < m.sq_cap,
    ensures
        ({
            let slot = spec_token_slot(cqe.user_data) as int;
            let n: int = if cqe.res as int <= m.buf_size as int {
                cqe.res as int
            } else {
                m.buf_size as int
            };
            let k = spec_classify(m.table.slots[slot].buf.take(n));
            let (m1, close) = spec_dispatch(m, cqe);
            &&& m1.table == m.table
            &&& m1.sq == m.sq.push(spec_send_sqe(m.table.slots[slot].fd as i32, k, slot as u32))
            &&& m1.cq == m.cq
            &&& close is None
        }),
{
}

/// A successful send completion, dispatched while the submission ring
/// has room, keeps the connection alive: the next receive for the same
/// slot is queued, the slot is left exactly as it was — still active,
/// same socket — and nothing is closed. (With the ring full,
/// `spec_dispatch` releases the slot instead.)
pub proof fn lemma_send_completion_keeps_alive(m: ReactorModel, cqe: Cqe)
    requires
        spec_token_kind(cqe.user_data) == Some(OpKind::Send),
        0 <= spec_token_slot(cqe.user_data) < m.table.capacity(),
        cqe.res > 0,
        m.sq.len() < m.sq_cap,
    ensures
        ({
            let slot = spec_token_slot(cqe.user_data) as int;
            let (m1, close) = spec_dispatch(m, cqe);
            &&& m1.table == m.table
            &&& m1.sq == m.sq.push(
                spec_recv_sqe(m.table.slots[slot].fd as i32, m.buf_size as u32, slot as u32),
            )
            &&& m1.cq == m.cq
            &&& close is None
        }),
{
}

/// Whether an executable close result carries exactly the handle the
/// model asks to close.
pub open spec fn close_matches(r: Option<i32>, s: Option<int>) -> bool {
    match (r, s) {
        (Option::None, Option::None) => true,
        (Option::Some(a), Option::Some(b)) => a as int == b,
        _ => false,
    }
}

/// The reactor: connection table, submission ring, completion ring, and
/// the listening socket handle accepts are submitted against.
pub struct Reactor {
    pub table: ConnTable,
    pub sq: Ring<Sqe>,
    pub cq: Ring<Cqe>,
    pub listen_fd: i32,
}

impl Reactor {
    /// Well-formedness: each component is well-formed, slot indices fit
    /// in the low half of a token, and buffer sizes fit a descriptor's
    /// length field.
    pub open spec fn wf(self) -> bool {
        &&& self.table.wf()
        &&& self.sq.inv()
        &&& self.cq.inv()
        &&& self.table@.capacity() <= 0xFFFF_FFFF
        &&& self.table.spec_buf_size() <= 0xFFFF_FFFF
        &&& self.listen_fd >= 0
    }

    /// The reactor's state as the model sees it.
    pub open spec fn model(self) -> ReactorModel {
        ReactorModel {
            table: self.table@,
            buf_size: self.table.spec_buf_size(),
            sq: self.sq.pending(),
            sq_cap: self.sq.capacity(),
            cq: self.cq.pending(),
            cq_cap: self.cq.capacity(),
            listen_fd: self.listen_fd,
        }
    }

    /// Builds a reactor around a listening socket handle: a fresh table
    /// of `conn_capacity` slots with `buf_size`-byte buffers, and two
    /// empty rings of `ring_size` entries each (`ring_size` must be a
    /// nonzero power of two).
    pub fn new(listen_fd: i32, ring_size: u32, conn_capacity: usize, buf_size: usize) -> (r:
        Reactor)
        requires
            listen_fd >= 0,
            ring_size >= 1,
            ring_size & ((ring_size - 1) as u32) == 0,
            conn_capacity <= 0xFFFF_FFFF,
            buf_size <= 0xFFFF_FFFF,
        ensures
            r.wf(),
            r.model().table.capacity() == conn_capacity,
            r.model().table.free.len() == conn_capacity,
            forall|i: int|
                0 <= i < conn_capacity ==> {
                    &&& !(#[trigger] r.model().table.slots[i]).active
                    &&& r.model().table.slots[i].buf_len == 0
                },
            r.model().buf_size == buf_size,
            r.model().sq == Seq::<Sqe>::empty(),
            r.model().sq_cap == ring_size,
            r.model().cq == Seq::<Cqe>::empty(),
            r.model().cq_cap == ring_size,
            r.model().listen_fd == listen_fd,
    {
        let blank = Sqe { opcode: 0, fd: -1, len: 0, user_data: 0, resp: None };
        Reactor {
            table: ConnTable::new(conn_capacity, buf_size),
            sq: Ring::new(ring_size, blank),
            cq: Ring::new(ring_size, Cqe { user_data: 0, res: 0 }),
            listen_fd,
        }
    }

    /// Queues a fresh accept operation; reports failure when the
    /// submission ring is full.
    pub fn submit_accept(&mut self) -> (ok: bool)
        requires
            old(self).wf(),
        ensures
            final(self).wf(),
            final(self).table == old(self).table,
            final(self).cq == old(self).cq,
            final(self).listen_fd == old(self).listen_fd,
            final(self).sq.capacity() == old(self).sq.capacity(),
            ({
                let (sq1, fit) = spec_push_if_room(
                    old(self).model().sq,
                    old(self).model().sq_cap,
                    spec_accept_sqe(old(self).listen_fd),
                );
                ok == fit && final(self).sq.pending() == sq1
            }),
    {
        let token = encode_token(OpKind::Accept, 0);
        let sqe = Sqe { opcode: OP_ACCEPT, fd: self.listen_fd, len: 0, user_data: token, resp: None };
        self.sq.submit(sqe)
    }

    /// Queues a receive into a slot's buffer; reports failure when the
    /// submission ring is full.
    pub fn submit_recv(&mut self, slot: usize) -> (ok: bool)
        requires
            old(self).wf(),
            slot < old(self).table@.capacity(),
        ensures
            final(self).wf(),
            final(self).table == old(self).table,
            final(self).cq == old(self).cq,
            final(self).listen_fd == old(self).listen_fd,
            final(self).sq.capacity() == old(self).sq.capacity(),
            ({
                let (sq1, fit) = spec_push_if_room(
                    old(self).model().sq,
                    old(self).model().sq_cap,
                    spec_recv_sqe(
                        old(self).table@.slots[slot as int].fd as i32,
                        old(self).model().buf_size as u32,
                        slot as u32,
                    ),
                );
                ok == fit && final(self).sq.pending() == sq1
            }),
    {
        let token = encode_token(OpKind::Recv, slot as u32);
        let fd = self.table.slot_fd(slot);
        let len = self.table.buffer_size() as u32;
        let sqe = Sqe { opcode: OP_RECV, fd, len, user_data: token, resp: None };
        self.sq.submit(sqe)
    }

    /// Queues a send of one canned response on a slot's socket; reports
    /// failure when the submission ring is full.
    pub fn submit_send(&mut self, slot: usize, k: ResponseKind) -> (ok: bool)
        requires
            old(self).wf(),
            slot < old(self).table@.capacity(),
        ensures
            final(self).wf(),
            final(self).table == old(self).table,
            final(self).cq == old(self).cq,
            final(self).listen_fd == old(self).listen_fd,
            final(self).sq.capacity() == old(self).sq.capacity(),
            ({
                let (sq1, fit) = spec_push_if_room(
                    old(self).model().sq,
                    old(self).model().sq_cap,
                    spec_send_sqe(old(self).table@.slots[slot as int].fd as i32, k, slot as u32),
                );
                ok == fit && final(self).sq.pending() == sq1
            }),
    {
        let token = encode_token(OpKind::Send, slot as u32);
        let fd = self.table.slot_fd(slot);
        let sqe = Sqe { opcode: OP_SEND, fd, len: 0, user_data: token, resp: Some(k) };
        self.sq.submit(sqe)
    }

    /// Queues up to `count` accept operations, stopping silently at the
    /// ring's capacity: as many as there was room for, and no more.
    pub fn startup(&mut self, count: u32)
        requires
            old(self).wf(),
        ensures
            final(self).wf(),
            final(self).table == old(self).table,
            final(self).cq == old(self).cq,
            final(self).listen_fd == old(self).listen_fd,
            final(self).sq.capacity() == old(self).sq.capacity(),
            ({
                let space = old(self).sq.capacity() - old(self).sq.pending().len();
                let added: int = if count as int <= space {
                    count as int
                } else {
                    space
                };
                final(self).sq.pending() == old(self).sq.pending() + Seq::new(
                    added as nat,
                    |k: int| spec_accept_sqe(old(self).listen_fd),
                )
            }),
    {
        let mut i: u32 = 0;
        proof {
            self.sq.lemma_pending_bounded();
            assert(old(self).sq.pending() + Seq::new(
                0nat,
                |k: int| spec_accept_sqe(old(self).listen_fd),
            ) =~= old(self).sq.pending());
        }
        while i < count
            invariant
                self.wf(),
                i <= count,
                old(self).sq.pending().len() <= old(self).sq.capacity(),
                self.table == old(self).table,
                self.cq == old(self).cq,
                self.listen_fd == old(self).listen_fd,
                self.sq.capacity() == old(self).sq.capacity(),
                ({
                    let space = old(self).sq.capacity() - old(self).sq.pending().len();
                    let added: int = if i as int <= space {
                        i as int
                    } else {
                        space
                    };
                    self.sq.pending() == old(self).sq.pending() + Seq::new(
                        added as nat,
                        |k: int| spec_accept_sqe(old(self).listen_fd),
                    )
                }),
            decreases count - i,
        {
            let ghost pend_before = self.sq.pending();
            let _ = self.submit_accept();
            proof {
                let accept = spec_accept_sqe(old(self).listen_fd);
                let pend0 = old(self).sq.pending();
                let space = old(self).sq.capacity() - pend0.len();
                let added: int = if i as int <= space {
                    i as int
                } else {
                    space
                };
                let added1: int = if i as int + 1 <= space {
                    i as int + 1
                } else {
                    space
                };
                if pend_before.len() < old(self).sq.capacity() {
                    assert(added1 == added + 1);
                    assert(Seq::new(added1 as nat, |k: int| accept) =~= Seq::new(
                        added as nat,
                        |k: int| accept,
                    ).push(accept));
                    assert(pend0 + Seq::new(added1 as nat, |k: int| accept) =~= pend_before.push(
                        accept,
                    ));
                } else {
                    assert(added == space && added1 == space);
                }
            }
            i += 1;
        }
    }

    /// Dispatches one completion: decodes its token, updates the table
    /// and queues follow-up operations as `spec_dispatch` says, and
    /// returns the socket handle the caller must now close, if any.
    pub fn handle_completion(&mut self, cqe: Cqe) -> (close: Option<i32>)
        requires
            old(self).wf(),
        ensures
            final(self).wf(),
            final(self).cq == old(self).cq,
            final(self).model() == spec_dispatch(old(self).model(), cqe).0,
            close_matches(close, spec_dispatch(old(self).model(), cqe).1),
    {
        let (kind, slot32) = decode_token(cqe.user_data);
        match kind {
            None => None,
            Some(OpKind::Accept) => {
                let _ = self.submit_accept();
                if cqe.res >= 0 {
                    let got = self.table.acquire(cqe.res);
                    match got {
                        Some(i) => {
                            let ok = self.submit_recv(i);
                            if ok {
                                proof {
                                    assert(self.model() =~~= spec_dispatch(old(self).model(), cqe).0);
                                }
                                None
                            } else {
                                let close = self.table.release(i);
                                proof {
                                    assert(self.model() =~~= spec_dispatch(old(self).model(), cqe).0);
                                }
                                close
                            }
                        },
                        None => {
                            proof {
                                assert(self.model() =~~= spec_dispatch(old(self).model(), cqe).0);
                            }
                            Some(cqe.res)
                        },
                    }
                } else {
                    proof {
                        assert(self.model() =~~= spec_dispatch(old(self).model(), cqe).0);
                    }
                    None
                }
            },
            Some(OpKind::Recv) => {
                let slot = slot32 as usize;
                if slot >= self.table.capacity() {
                    return None;
                }
                if cqe.res <= 0 {
                    let close = self.table.release(slot);
                    proof {
                        assert(self.model() =~~= spec_dispatch(old(self).model(), cqe).0);
                    }
                    close
                } else {
                    let bs = self.table.buffer_size();
                    let res_len = cqe.res as usize;
                    let n = if res_len <= bs {
                        res_len
                    } else {
                        bs
                    };
                    let k = classify(self.table.slot_buffer(slot), n);
                    let ok = self.submit_send(slot, k);
                    if ok {
                        proof {
                            assert(self.model() =~~= spec_dispatch(old(self).model(), cqe).0);
                        }
                        None
                    } else {
                        let close = self.table.release(slot);
                        proof {
                            assert(self.model() =~~= spec_dispatch(old(self).model(), cqe).0);
                        }
                        close
                    }
                }
            },
            Some(OpKind::Send) => {
                let slot = slot32 as usize;
                if slot >= self.table.capacity() {
                    return None;
                }
                if cqe.res > 0 {
                    let ok = self.submit_recv(slot);
                    if ok {
                        proof {
                            assert(self.model() =~~= spec_dispatch(old(self).model(), cqe).0);
                        }
                        None
                    } else {
                        let close = self.table.release(slot);
                        proof {
                            assert(self.model() =~~= spec_dispatch(old(self).model(), cqe).0);
                        }
                        close
                    }
                } else {
                    let close = self.table.release(slot);
                    proof {
                        assert(self.model() =~~= spec_dispatch(old(self).model(), cqe).0);
                    }
                    close
                }
            },
        }
    }

    /// Drains the completion ring: pops and dispatches every queued
    /// completion, oldest first, and returns the socket handles the
    /// caller must now close, in dispatch order.
    pub fn drain_completions(&mut self) -> (closes: Vec<i32>)
        requires
            old(self).wf(),
        ensures
            final(self).wf(),
            final(self).model() == spec_drain(old(self).model()).0,
            closes@.map_values(|fd: i32| fd as int) == spec_drain(old(self).model()).1,
    {
        let mut closes: Vec<i32> = Vec::new();
        loop
            invariant
                self.wf(),
                spec_drain(old(self).model()).0 == spec_drain(self.model()).0,
                spec_drain(old(self).model()).1 == closes@.map_values(|fd: i32| fd as int)
                    + spec_drain(self.model()).1,
            decreases self.cq.pending().len(),
        {
            let popped = self.cq.pop();
            match popped {
                None => {
                    proof {
                        assert(spec_drain(self.model()).0 =~~= self.model());
                        assert(spec_drain(self.model()).1 =~= Seq::<int>::empty());
                        assert(closes@.map_values(|fd: i32| fd as int) + Seq::<int>::empty()
                            =~= closes@.map_values(|fd: i32| fd as int));
                    }
                    return closes;
                },
                Some(cqe) => {
                    let close = self.handle_completion(cqe);
                    match close {
                        Some(fd) => {
                            closes.push(fd);
                        },
                        None => {},
                    }
                },
            }
        }
    }
}

} // verus!
