//! The connection table: a fixed-capacity arena of per-connection state —
//! socket handle, receive buffer, liveness flag — plus a free list of
//! unused slot indices. Acquire and release are the only paths that move a
//! slot between free and active, so the table keeps the invariant that a
//! slot index is on the free list exactly when its connection is inactive.

use vstd::prelude::*;

verus! {

/// One connection slot, as the model sees it.
#[verifier::ext_equal]
pub struct SlotModel {
    /// The socket handle; `-1` is the sentinel of an unused slot.
    pub fd: int,
    /// Whether the slot currently holds a live connection.
    pub active: bool,
    /// The receive buffer's contents.
    pub buf: Seq<u8>,
    /// How much of the receive buffer is filled.
    pub buf_len: nat,
}

/// The model of the whole table: the slots and the free list.
#[verifier::ext_equal]
pub struct TableModel {
    pub slots: Seq<SlotModel>,
    pub free: Seq<int>,
}

impl TableModel {
    /// How many slots the table has.
    pub open spec fn capacity(self) -> nat {
        self.slots.len()
    }

    /// Whether slot index `i` is on the free list.
    pub open spec fn in_free(self, i: int) -> bool {
        self.free.contains(i)
    }

    /// Well-formedness: buffers have the fixed size, the liveness flag
    /// agrees with the socket sentinel, the free list holds valid indices
    /// without repetition, and a slot is free exactly when it is inactive.
    pub open spec fn wf(self, buf_size: nat) -> bool {
        &&& forall|i: int|
            0 <= i < self.slots.len() ==> {
                &&& (#[trigger] self.slots[i]).buf.len() == buf_size
                &&& self.slots[i].buf_len <= buf_size
                &&& (self.slots[i].active <==> self.slots[i].fd >= 0)
                &&& -1 <= self.slots[i].fd <= 0x7FFF_FFFF
            }
        &&& forall|j: int| 0 <= j < self.free.len() ==> 0 <= #[trigger] self.free[j] < self.slots.len()
        &&& forall|j: int, k: int|
            0 <= j < k < self.free.len() ==> #[trigger] self.free[j] != #[trigger] self.free[k]
        &&& forall|i: int| 0 <= i < self.slots.len() ==> (self.in_free(i) <==> !self.slots[i].active)
    }
}

/// What `acquire` does to the model: pops the last free index, marks that
/// slot active and stores the socket handle in it. Returns the new model
/// and the popped index, or the model unchanged when the pool is empty.
pub open spec fn spec_acquire(m: TableModel, fd: int) -> (TableModel, Option<int>) {
    if m.free.len() == 0 {
        (m, None)
    } else {
        let i = m.free.last();
        let slot = SlotModel { fd, active: true, buf: m.slots[i].buf, buf_len: 0 };
        (TableModel { slots: m.slots.update(i, slot), free: m.free.drop_last() }, Some(i))
    }
}

/// What `release` does to the model: on an active slot, clears the socket
/// handle back to the sentinel, clears the liveness flag and pushes the
/// index onto the free list; on anything else it is a no-op.
pub open spec fn spec_release(m: TableModel, i: int) -> TableModel {
    if 0 <= i < m.slots.len() && m.slots[i].active {
        let slot = SlotModel {
            fd: -1,
            active: false,
            buf: m.slots[i].buf,
            buf_len: m.slots[i].buf_len,
        };
        TableModel { slots: m.slots.update(i, slot), free: m.free.push(i) }
    } else {
        m
    }
}

/// Release is idempotent: releasing a slot twice in succession leaves the
/// table exactly as releasing it once does — no second free-list insertion.
pub proof fn lemma_release_idempotent(m: TableModel, i: int)
    ensures
        spec_release(spec_release(m, i), i) == spec_release(m, i),
{
    if 0 <= i < m.slots.len() && m.slots[i].active {
        let m1 = spec_release(m, i);
        assert(m1.slots[i].active == false);
    }
}

/// A well-formed table puts every slot index on the free list or in an
/// active connection, and never in both.
pub proof fn lemma_free_xor_active(m: TableModel, buf_size: nat, i: int)
    requires
        m.wf(buf_size),
        0 <= i < m.capacity(),
    ensures
        m.in_free(i) <==> !m.slots[i].active,
        !(m.in_free(i) && m.slots[i].active),
{
}

/// One connection slot: socket handle, receive buffer, liveness flag.
pub struct Connection {
    fd: i32,
    buf: Vec<u8>,
    buf_len: usize,
    active: bool,
}

impl View for Connection {
    type V = SlotModel;

    closed spec fn view(&self) -> SlotModel {
        SlotModel {
            fd: self.fd as int,
            active: self.active,
            buf: self.buf@,
            buf_len: self.buf_len as nat,
        }
    }
}

/// The fixed-capacity connection table.
pub struct ConnTable {
    conns: Vec<Connection>,
    free: Vec<usize>,
    buf_size: usize,
}

impl View for ConnTable {
    type V = TableModel;

    closed spec fn view(&self) -> TableModel {
        TableModel {
            slots: Seq::new(self.conns@.len(), |i: int| self.conns@[i]@),
            free: self.free@.map_values(|x: usize| x as int),
        }
    }
}

impl ConnTable {
    /// The fixed size of every slot's receive buffer.
    pub closed spec fn spec_buf_size(self) -> nat {
        self.buf_size as nat
    }

    /// Well-formedness of the table.
    pub open spec fn wf(self) -> bool {
        self@.wf(self.spec_buf_size())
    }

    /// Builds a table of `capacity` inactive slots, each with a zeroed
    /// receive buffer of `buf_size` bytes, and all indices free: slot `j`
    /// at position `j` of the free list.
    pub fn new(capacity: usize, buf_size: usize) -> (t: ConnTable)
        ensures
            t.wf(),
            t@.capacity() == capacity,
            t.spec_buf_size() == buf_size,
            t@.free == Seq::new(capacity as nat, |j: int| j),
            forall|i: int|
                0 <= i < capacity ==> {
                    &&& !(#[trigger] t@.slots[i]).active
                    &&& t@.slots[i].buf_len == 0
                },
    {
        let mut conns: Vec<Connection> = Vec::new();
        let mut free: Vec<usize> = Vec::new();
        let mut j: usize = 0;
        while j < capacity
            invariant
                j <= capacity,
                conns@.len() == j,
                free@.len() == j,
                forall|i: int|
                    0 <= i < j ==> {
                        &&& (#[trigger] conns@[i])@.fd == -1
                        &&& !conns@[i]@.active
                        &&& conns@[i]@.buf == Seq::new(buf_size as nat, |b: int| 0u8)
                        &&& conns@[i]@.buf_len == 0
                    },
                forall|i: int| 0 <= i < j ==> #[trigger] free@[i] == i,
            decreases capacity - j,
        {
            let buf = zero_vec(buf_size);
            conns.push(Connection { fd: -1, buf, buf_len: 0, active: false });
            free.push(j);
            j += 1;
        }
        let t = ConnTable { conns, free, buf_size };
        proof {
            assert(t@.free =~= Seq::new(capacity as nat, |j: int| j));
            assert forall|i: int| 0 <= i < capacity implies t@.in_free(i) by {
                assert(t@.free[i] == i);
            }
        }
        t
    }

    /// Pops a free slot, marks it active and stores the just-accepted
    /// socket handle in it. Returns the slot index, or `None` when the
    /// pool is exhausted (the caller must then reject the connection).
    pub fn acquire(&mut self, fd: i32) -> (r: Option<usize>)
        requires
            old(self).wf(),
            fd >= 0,
        ensures
            final(self).wf(),
            final(self).spec_buf_size() == old(self).spec_buf_size(),
            final(self)@ == spec_acquire(old(self)@, fd as int).0,
            match r {
                Some(i) => spec_acquire(old(self)@, fd as int).1 == Some(i as int),
                None => old(self)@.free.len() == 0,
            },
    {
        let popped = self.free.pop();
        match popped {
            None => {
                proof {
                    assert(old(self)@.free.len() == 0);
                    assert(self@ =~= old(self)@);
                }
                None
            },
            Some(i) => {
                proof {
                    assert(old(self)@.free[old(self)@.free.len() - 1] == i as int);
                    assert(i < self.conns@.len());
                }
                self.conns[i].fd = fd;
                self.conns[i].active = true;
                self.conns[i].buf_len = 0;
                proof {
                    let m0 = old(self)@;
                    let (m1, r1) = spec_acquire(m0, fd as int);
                    assert(self@.slots =~= m1.slots);
                    assert(self@.free =~= m1.free);
                    assert(self@ =~= m1);
                    lemma_removed_last_not_contained(m0.free, i as int);
                    assert forall|q: int| 0 <= q < m1.slots.len() implies (m1.in_free(q)
                        <==> !m1.slots[q].active) by {
                        lemma_free_xor_active(m0, old(self).spec_buf_size(), q);
                        if q != i as int {
                            lemma_drop_last_contains_other(m0.free, q);
                            assert(m1.slots[q] == m0.slots[q]);
                        } else {
                            assert(m1.slots[q].active);
                        }
                    }
                }
                Some(i)
            },
        }
    }

    /// Releases a slot: if it is active, clears it, returns its index to
    /// the free list, and hands back the socket handle that the caller
    /// must now close; if it is already inactive, does nothing. This is
    /// the single path by which a connection's resources come back.
    pub fn release(&mut self, i: usize) -> (r: Option<i32>)
        requires
            old(self).wf(),
            i < old(self)@.capacity(),
        ensures
            final(self).wf(),
            final(self).spec_buf_size() == old(self).spec_buf_size(),
            final(self)@ == spec_release(old(self)@, i as int),
            match r {
                Some(fd) => old(self)@.slots[i as int].active && fd as int == old(
                    self,
                )@.slots[i as int].fd,
                None => !old(self)@.slots[i as int].active,
            },
    {
        if !self.conns[i].active {
            proof {
                assert(self@ =~= spec_release(old(self)@, i as int));
            }
            return None;
        }
        let fd = self.conns[i].fd;
        self.conns[i].fd = -1;
        self.conns[i].active = false;
        self.free.push(i);
        proof {
            let m0 = old(self)@;
            let m1 = spec_release(m0, i as int);
            assert(self@.slots =~= m1.slots);
            assert(self@.free =~= m1.free);
            assert(self@ =~= m1);
            assert forall|q: int| 0 <= q < m1.slots.len() implies (m1.in_free(q) <==> !m1.slots[q].active) by {
                lemma_free_xor_active(m0, old(self).spec_buf_size(), q);
                lemma_push_contains(m0.free, i as int, q);
                if q != i as int {
                    assert(m1.slots[q] == m0.slots[q]);
                } else {
                    assert(!m1.slots[q].active);
                }
            }
            assert forall|j: int, k: int| 0 <= j < k < m1.free.len() implies #[trigger] m1.free[j]
                != #[trigger] m1.free[k] by {
                if k == m1.free.len() - 1 {
                    assert(m0.in_free(m1.free[j]));
                }
            }
        }
        Some(fd)
    }

    /// Stores just-received bytes in a slot's buffer and records how much
    /// of it is now filled. The rest of the buffer keeps its old contents.
    pub fn fill_buffer(&mut self, i: usize, data: &Vec<u8>)
        requires
            old(self).wf(),
            i < old(self)@.capacity(),
            data@.len() <= old(self).spec_buf_size(),
        ensures
            final(self).wf(),
            final(self).spec_buf_size() == old(self).spec_buf_size(),
            final(self)@.free == old(self)@.free,
            final(self)@.slots == old(self)@.slots.update(
                i as int,
                SlotModel {
                    fd: old(self)@.slots[i as int].fd,
                    active: old(self)@.slots[i as int].active,
                    buf: data@ + old(self)@.slots[i as int].buf.skip(data@.len() as int),
                    buf_len: data@.len(),
                },
            ),
    {
        let n = data.len();
        self.conns[i].buf_len = n;
        proof {
            assert forall|q: int|
                0 <= q < self.conns@.len() && q != i implies self.conns@[q] == old(
                self,
            ).conns@[q] by {}
        }
        let ghost snap = self.conns@;
        let ghost buf0 = snap[i as int]@.buf;
        let mut j: usize = 0;
        while j < n
            invariant
                j <= n,
                n == data@.len(),
                i < self.conns@.len(),
                self.conns@.len() == snap.len(),
                buf0 == snap[i as int]@.buf,
                n <= buf0.len(),
                forall|q: int| 0 <= q < snap.len() && q != i ==> self.conns@[q] == snap[q],
                self.conns@[i as int]@.fd == snap[i as int]@.fd,
                self.conns@[i as int]@.active == snap[i as int]@.active,
                self.conns@[i as int]@.buf_len == snap[i as int]@.buf_len,
                self.conns@[i as int]@.buf =~= data@.take(j as int) + buf0.skip(j as int),
                self.free@ == old(self).free@,
                self.buf_size == old(self).buf_size,
            decreases n - j,
        {
            let b = data[j];
            let ghost before = self.conns@[i as int]@.buf;
            self.conns[i].buf[j] = b;
            proof {
                assert(self.conns@[i as int]@.buf =~= before.update(j as int, b));
                assert(self.conns@[i as int]@.buf =~= data@.take(j + 1 as int) + buf0.skip(
                    j + 1 as int,
                ));
            }
            j += 1;
        }
        proof {
            let target = old(self)@.slots.update(
                i as int,
                SlotModel {
                    fd: old(self)@.slots[i as int].fd,
                    active: old(self)@.slots[i as int].active,
                    buf: data@ + old(self)@.slots[i as int].buf.skip(data@.len() as int),
                    buf_len: data@.len(),
                },
            );
            assert(data@.take(n as int) =~= data@);
            assert(snap =~= old(self).conns@.update(
                i as int,
                Connection {
                    fd: old(self).conns@[i as int].fd,
                    buf: old(self).conns@[i as int].buf,
                    buf_len: n,
                    active: old(self).conns@[i as int].active,
                },
            ));
            assert forall|q: int| 0 <= q < snap.len() implies self@.slots[q] =~~= target[q] by {
                if q == i as int {
                    assert(self@.slots[q].buf =~= target[q].buf);
                } else {
                    assert(self.conns@[q] == old(self).conns@[q]);
                }
            }
            assert(self@.slots =~~= target);
            assert(self@.free =~= old(self)@.free);
            let bs = old(self).spec_buf_size();
            assert forall|q: int|
                0 <= q < self@.slots.len() implies {
                &&& (#[trigger] self@.slots[q]).buf.len() == bs
                &&& self@.slots[q].buf_len <= bs
                &&& (self@.slots[q].active <==> self@.slots[q].fd >= 0)
                &&& self@.slots[q].fd >= -1
            } by {
                assert(old(self)@.slots[q].buf.len() == bs);
                if q == i as int {
                    assert(self@.slots[q].buf.len() == data@.len() + (bs - data@.len()));
                }
            }
            assert forall|q: int|
                0 <= q < self@.slots.len() implies (self@.in_free(q) <==> !self@.slots[q].active) by {
                assert(old(self)@.in_free(q) <==> !old(self)@.slots[q].active);
                assert(self@.slots[q].active == old(self)@.slots[q].active);
            }
        }
    }

    /// How many slots the table has.
    pub fn capacity(&self) -> (n: usize)
        ensures
            n == self@.capacity(),
    {
        self.conns.len()
    }

    /// How many slots are currently free.
    pub fn free_len(&self) -> (n: usize)
        ensures
            n == self@.free.len(),
    {
        self.free.len()
    }

    /// The fixed size of every slot's receive buffer.
    pub fn buffer_size(&self) -> (n: usize)
        ensures
            n == self.spec_buf_size(),
    {
        self.buf_size
    }

    /// Whether a slot currently holds a live connection.
    pub fn is_active(&self, i: usize) -> (b: bool)
        requires
            i < self@.capacity(),
        ensures
            b == self@.slots[i as int].active,
    {
        self.conns[i].active
    }

    /// A slot's socket handle (`-1` when the slot is unused).
    pub fn slot_fd(&self, i: usize) -> (fd: i32)
        requires
            i < self@.capacity(),
        ensures
            fd as int == self@.slots[i as int].fd,
    {
        self.conns[i].fd
    }

    /// A slot's receive buffer.
    pub fn slot_buffer(&self, i: usize) -> (r: &Vec<u8>)
        requires
            i < self@.capacity(),
        ensures
            r@ == self@.slots[i as int].buf,
    {
        &self.conns[i].buf
    }

    /// How much of a slot's receive buffer is filled.
    pub fn slot_buf_len(&self, i: usize) -> (n: usize)
        requires
            i < self@.capacity(),
        ensures
            n == self@.slots[i as int].buf_len,
    {
        self.conns[i].buf_len
    }
}

/// A vector of `n` zero bytes.
fn zero_vec(n: usize) -> (v: Vec<u8>)
    ensures
        v@ == Seq::new(n as nat, |i: int| 0u8),
{
    let mut v: Vec<u8> = Vec::new();
    let mut i: usize = 0;
    while i < n
        invariant
            i <= n,
            v@ =~= Seq::new(i as nat, |k: int| 0u8),
        decreases n - i,
    {
        v.push(0u8);
        i += 1;
    }
    proof {
        assert(v@ =~= Seq::new(n as nat, |i: int| 0u8));
    }
    v
}

/// After dropping the last element of a duplicate-free sequence, that
/// element is no longer contained.
proof fn lemma_removed_last_not_contained(s: Seq<int>, x: int)
    requires
        s.len() > 0,
        s.last() == x,
        forall|j: int, k: int| 0 <= j < k < s.len() ==> #[trigger] s[j] != #[trigger] s[k],
    ensures
        !s.drop_last().contains(x),
{
    if s.drop_last().contains(x) {
        let j = choose|j: int| 0 <= j < s.drop_last().len() && s.drop_last()[j] == x;
        assert(s[j] == x && s[s.len() - 1] == x);
    }
}

/// Dropping the last element of a sequence does not change whether any
/// other value is contained.
proof fn lemma_drop_last_contains_other(s: Seq<int>, x: int)
    requires
        s.len() > 0,
        x != s.last(),
    ensures
        s.drop_last().contains(x) <==> s.contains(x),
{
    if s.contains(x) {
        let j = choose|j: int| 0 <= j < s.len() && s[j] == x;
        assert(j < s.len() - 1);
        assert(s.drop_last()[j] == x);
    }
    if s.drop_last().contains(x) {
        let j = choose|j: int| 0 <= j < s.drop_last().len() && s.drop_last()[j] == x;
        assert(s[j] == x);
    }
}

/// Pushing `x` onto a sequence makes exactly `x` newly contained.
proof fn lemma_push_contains(s: Seq<int>, x: int, q: int)
    ensures
        s.push(x).contains(q) <==> (s.contains(q) || q == x),
{
    if s.contains(q) {
        let j = choose|j: int| 0 <= j < s.len() && s[j] == q;
        assert(s.push(x)[j] == q);
    }
    if q == x {
        assert(s.push(x)[s.len() as int] == q);
    }
    if s.push(x).contains(q) {
        let j = choose|j: int| 0 <= j < s.push(x).len() && s.push(x)[j] == q;
        if j < s.len() {
            assert(s[j] == q);
        }
    }
}

} // verus!
