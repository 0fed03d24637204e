//! The ring transport: a bounded, power-of-two-sized ring of fixed-layout
//! descriptors, driven by two free-running 32-bit cursors. `head` and
//! `tail` only ever grow (wrapping modulo 2^32), an entry lives at its
//! cursor value modulo the ring size, and the number of outstanding
//! entries is the wrapping difference `tail - head`. Submission refuses —
//! never blocks, never grows — once that difference reaches the ring
//! size: this is the transport's only backpressure mechanism.

use vstd::arithmetic::div_mod::{
    lemma_add_mod_noop, lemma_mod_bound, lemma_mod_equivalence, lemma_mod_mod,
    lemma_mod_sub_multiples_vanish, lemma_small_mod,
};
use vstd::arithmetic::power2::{lemma2_to64, lemma_pow2_adds, lemma_pow2_pos, pow2};
use vstd::bits::{lemma_u32_low_bits_mask_is_mod, low_bits_mask};
use vstd::prelude::*;

use crate::classify::ResponseKind;

verus! {

/// Operation code of an accept descriptor.
pub const OP_ACCEPT: u8 = 13;

/// Operation code of a receive descriptor.
pub const OP_RECV: u8 = 15;

/// Operation code of a send descriptor.
pub const OP_SEND: u8 = 16;

/// A submission descriptor: operation code, target socket handle, buffer
/// length, and the opaque token echoed back on completion. A send
/// descriptor also names which canned response its payload is.
#[derive(Clone, Copy, PartialEq, Eq, Debug)]
pub struct Sqe {
    pub opcode: u8,
    pub fd: i32,
    pub len: u32,
    pub user_data: u64,
    pub resp: Option<ResponseKind>,
}

/// A completion descriptor: the token of the submitted operation it
/// answers, and a result code (negative on failure).
#[derive(Clone, Copy, PartialEq, Eq, Debug)]
pub struct Cqe {
    pub user_data: u64,
    pub res: i32,
}

/// What to do with the result of the blocking wait for completions.
#[derive(Clone, Copy, PartialEq, Eq, Structural, Debug)]
pub enum WaitAction {
    /// A non-negative result: completions may be ready, carry on.
    Proceed,
    /// The call was interrupted, or would have to block: retry it in
    /// place.
    Retry,
    /// Any other failure: the transport is unusable and the process
    /// cannot run without it.
    Fatal,
}

/// The result code of a call cut short by an interrupt.
pub const INTERRUPTED: i32 = -4;

/// The result code of a call that would have to block.
pub const WOULD_BLOCK: i32 = -11;

/// The disposition of a wait result: non-negative results proceed,
/// interrupted and would-block results are transient and retried, and
/// every other negative result is fatal.
pub open spec fn spec_wait_action(res: i32) -> WaitAction {
    if res >= 0 {
        WaitAction::Proceed
    } else if res == INTERRUPTED || res == WOULD_BLOCK {
        WaitAction::Retry
    } else {
        WaitAction::Fatal
    }
}

/// Classifies the result of the blocking wait primitive.
pub fn wait_action(res: i32) -> (a: WaitAction)
    ensures
        a == spec_wait_action(res),
{
    if res >= 0 {
        WaitAction::Proceed
    } else if res == INTERRUPTED || res == WOULD_BLOCK {
        WaitAction::Retry
    } else {
        WaitAction::Fatal
    }
}

/// A bounded ring of descriptors with free-running wrapping cursors.
pub struct Ring<T> {
    entries: Vec<T>,
    head: u32,
    tail: u32,
    mask: u32,
    size: u32,
    consumed: Ghost<nat>,
    produced: Ghost<nat>,
    lg: Ghost<nat>,
}

impl<T: Copy> Ring<T> {
    /// How many entries the ring can hold at once.
    pub closed spec fn capacity(self) -> nat {
        self.size as nat
    }

    /// The head cursor: total entries ever consumed, before wrapping.
    pub closed spec fn head_count(self) -> nat {
        self.consumed@
    }

    /// The tail cursor: total entries ever produced, before wrapping.
    pub closed spec fn tail_count(self) -> nat {
        self.produced@
    }

    /// Well-formedness: the ring size is a power of two (the mask is one
    /// less and so divides 2^32 evenly), the stored 32-bit cursors are
    /// the wrapped images of the true counts, and no more than `size`
    /// entries are ever outstanding.
    pub closed spec fn inv(self) -> bool {
        &&& self.entries@.len() == self.size as nat
        &&& self.size >= 1
        &&& self.size as int == self.mask as int + 1
        &&& self.lg@ < 32
        &&& self.size as nat == pow2(self.lg@)
        &&& self.consumed@ <= self.produced@
        &&& self.produced@ - self.consumed@ <= self.size as nat
        &&& self.head as nat == self.consumed@ % 0x1_0000_0000
        &&& self.tail as nat == self.produced@ % 0x1_0000_0000
    }

    /// The outstanding entries, oldest first: everything submitted and
    /// not yet consumed.
    pub closed spec fn pending(self) -> Seq<T> {
        Seq::new(
            (self.produced@ - self.consumed@) as nat,
            |k: int| self.entries@[(self.consumed@ + k) % (self.size as int)],
        )
    }

    /// A well-formed ring never has more entries outstanding than its
    /// capacity.
    pub proof fn lemma_pending_bounded(self)
        requires
            self.inv(),
        ensures
            self.pending().len() <= self.capacity(),
    {
    }

    /// Builds an empty ring of `size` entries; `size` must be a nonzero
    /// power of two. Every slot starts as `fill`.
    pub fn new(size: u32, fill: T) -> (r: Ring<T>)
        requires
            size >= 1,
            size & ((size - 1) as u32) == 0,
        ensures
            r.inv(),
            r.capacity() == size,
            r.pending() == Seq::<T>::empty(),
            r.head_count() == 0,
            r.tail_count() == 0,
    {
        let mask = size - 1;
        let mut entries: Vec<T> = Vec::new();
        let mut i: u32 = 0;
        while i < size
            invariant
                i <= size,
                entries@.len() == i as nat,
            decreases size - i,
        {
            entries.push(fill);
            i += 1;
        }
        proof {
            assert(size == 1 || size == 0x2 || size == 0x4 || size == 0x8 || size == 0x10
                || size == 0x20 || size == 0x40 || size == 0x80 || size == 0x100 || size == 0x200
                || size == 0x400 || size == 0x800 || size == 0x1000 || size == 0x2000
                || size == 0x4000 || size == 0x8000 || size == 0x10000 || size == 0x20000
                || size == 0x40000 || size == 0x80000 || size == 0x100000 || size == 0x200000
                || size == 0x400000 || size == 0x800000 || size == 0x1000000 || size == 0x2000000
                || size == 0x4000000 || size == 0x8000000 || size == 0x10000000
                || size == 0x20000000 || size == 0x40000000 || size == 0x80000000) by (bit_vector)
                requires
                    size >= 1u32,
                    size & ((size - 1) as u32) == 0,
            ;
            lemma2_to64();
            assert(exists|e: nat| e < 32 && pow2(e) == size as nat);
        }
        let ghost lg = choose|e: nat| e < 32 && pow2(e) == size as nat;
        let r = Ring {
            entries,
            head: 0,
            tail: 0,
            mask,
            size,
            consumed: Ghost(0nat),
            produced: Ghost(0nat),
            lg: Ghost(lg),
        };
        proof {
            assert(r.pending() =~= Seq::<T>::empty());
        }
        r
    }

    /// How many entries are outstanding: the wrapping difference of the
    /// two cursors.
    pub fn outstanding(&self) -> (n: u32)
        requires
            self.inv(),
        ensures
            n as nat == self.pending().len(),
    {
        proof {
            lemma_wrap_diff(self.consumed@, self.produced@);
        }
        self.tail.wrapping_sub(self.head)
    }

    /// How many entries the ring can hold at once.
    pub fn ring_entries(&self) -> (n: u32)
        ensures
            n as nat == self.capacity(),
    {
        self.size
    }

    /// Whether the two cursors coincide, which happens exactly when no
    /// entry is outstanding.
    pub fn cursors_match(&self) -> (b: bool)
        requires
            self.inv(),
        ensures
            b <==> self.pending().len() == 0,
    {
        proof {
            lemma_wrap_diff(self.consumed@, self.produced@);
        }
        self.head == self.tail
    }

    /// Writes one descriptor into the ring and advances the tail cursor,
    /// unless the ring is full: then nothing changes and the submission
    /// reports failure. Success is reported exactly when fewer than
    /// `capacity` entries were outstanding.
    pub fn submit(&mut self, v: T) -> (ok: bool)
        requires
            old(self).inv(),
        ensures
            final(self).inv(),
            final(self).capacity() == old(self).capacity(),
            final(self).head_count() == old(self).head_count(),
            ok <==> old(self).pending().len() < old(self).capacity(),
            ok ==> final(self).pending() == old(self).pending().push(v)
                && final(self).tail_count() == old(self).tail_count() + 1,
            !ok ==> final(self).pending() == old(self).pending() && final(self).tail_count()
                == old(self).tail_count(),
    {
        proof {
            lemma_wrap_diff(self.consumed@, self.produced@);
        }
        let used = self.tail.wrapping_sub(self.head);
        if used >= self.size {
            return false;
        }
        let ghost c = self.consumed@ as int;
        let ghost p = self.produced@ as int;
        let ghost cap = self.size as int;
        let idx = self.tail & self.mask;
        proof {
            lemma_mask_mod(self.tail, self.mask, self.size, self.lg@);
            lemma_wrapped_mod_capacity(p as nat, self.lg@);
            lemma_mod_bound(p, cap);
            assert(idx as int == p % cap);
        }
        self.entries[idx as usize] = v;
        self.tail = self.tail.wrapping_add(1);
        proof {
            self.produced@ = (p + 1) as nat;
            lemma_wrap_incr(p as nat);
            assert forall|k: int| 0 <= k < p - c implies self.entries@[#[trigger] ((c + k) % cap)]
                == old(self).entries@[(c + k) % cap] by {
                lemma_mod_bound(c + k, cap);
                if (c + k) % cap == p % cap {
                    lemma_mod_equivalence(p, c + k, cap);
                    lemma_small_mod((p - c - k) as nat, cap as nat);
                    assert(false);
                }
            }
            assert(self.pending() =~= old(self).pending().push(v));
        }
        true
    }

    /// Takes the oldest outstanding entry out of the ring and advances
    /// the head cursor; reports `None` exactly when nothing was
    /// outstanding.
    pub fn pop(&mut self) -> (r: Option<T>)
        requires
            old(self).inv(),
        ensures
            final(self).inv(),
            final(self).capacity() == old(self).capacity(),
            final(self).tail_count() == old(self).tail_count(),
            match r {
                None => old(self).pending().len() == 0
                    && final(self).pending() == old(self).pending()
                    && final(self).head_count() == old(self).head_count(),
                Some(v) => old(self).pending().len() > 0
                    && v == old(self).pending()[0]
                    && final(self).pending() == old(self).pending().drop_first()
                    && final(self).head_count() == old(self).head_count() + 1,
            },
    {
        proof {
            lemma_wrap_diff(self.consumed@, self.produced@);
        }
        if self.head == self.tail {
            proof {
                assert(self.pending() =~= old(self).pending());
            }
            return None;
        }
        let ghost c = self.consumed@ as int;
        let ghost cap = self.size as int;
        let idx = self.head & self.mask;
        proof {
            lemma_mask_mod(self.head, self.mask, self.size, self.lg@);
            lemma_wrapped_mod_capacity(c as nat, self.lg@);
            lemma_mod_bound(c, cap);
            assert(idx as int == c % cap);
            assert(old(self).pending()[0] == self.entries@[c % cap]);
        }
        let v = self.entries[idx as usize];
        self.head = self.head.wrapping_add(1);
        proof {
            self.consumed@ = (c + 1) as nat;
            lemma_wrap_incr(c as nat);
            assert(self.pending() =~= old(self).pending().drop_first());
        }
        Some(v)
    }
}

/// The pending sequence is empty exactly when the wrapped 32-bit cursors
/// coincide: a ring that has consumed as many entries as it produced —
/// however many trips around the ring that took — stands at `head ==
/// tail` again.
pub proof fn lemma_drained_cursors_align<T: Copy>(r: Ring<T>)
    requires
        r.inv(),
    ensures
        r.pending().len() == 0 <==> r.head_count() % 0x1_0000_0000 == r.tail_count()
            % 0x1_0000_0000,
{
    lemma_wrap_diff(r.head_count(), r.tail_count());
}

/// For true counts `c <= p` that differ by less than 2^32, the wrapping
/// difference of their 32-bit images is exactly `p - c`.
proof fn lemma_wrap_diff(c: nat, p: nat)
    requires
        c <= p,
        p - c < 0x1_0000_0000,
    ensures
        ({
            let h = c % 0x1_0000_0000;
            let t = p % 0x1_0000_0000;
            &&& (if t >= h {
                t - h
            } else {
                t + 0x1_0000_0000 - h
            }) == p - c
            &&& (h == t <==> c == p)
        }),
{
    let m = 0x1_0000_0000 as int;
    let d = (p - c) as int;
    let h = c % 0x1_0000_0000;
    let t = p % 0x1_0000_0000;
    lemma_mod_bound(c as int, m);
    lemma_mod_bound(p as int, m);
    lemma_add_mod_noop(c as int, d, m);
    lemma_small_mod(d as nat, 0x1_0000_0000nat);
    assert(t as int == (h as int + d) % m);
    if h as int + d < m {
        lemma_small_mod((h + d) as nat, 0x1_0000_0000nat);
    } else {
        lemma_mod_sub_multiples_vanish((h as int + d), m);
        lemma_small_mod((h as int + d - m) as nat, 0x1_0000_0000nat);
    }
}

/// Incrementing the true count advances its 32-bit image by one, modulo
/// 2^32.
proof fn lemma_wrap_incr(p: nat)
    ensures
        (p + 1) % 0x1_0000_0000 == (if p % 0x1_0000_0000 == 0xFFFF_FFFF {
            0int
        } else {
            p % 0x1_0000_0000 + 1 as int
        }),
{
    let m = 0x1_0000_0000 as int;
    let t = p % 0x1_0000_0000;
    lemma_mod_bound(p as int, m);
    lemma_add_mod_noop(p as int, 1, m);
    lemma_small_mod(1nat, 0x1_0000_0000nat);
    if t as int + 1 < m {
        lemma_small_mod((t + 1) as nat, 0x1_0000_0000nat);
    } else {
        lemma_mod_sub_multiples_vanish(t as int + 1, m);
        lemma_small_mod(0nat, 0x1_0000_0000nat);
    }
}

/// Masking a cursor with `size - 1` reduces it modulo `size`, for `size`
/// the `lg`-th power of two.
proof fn lemma_mask_mod(x: u32, mask: u32, size: u32, lg: nat)
    requires
        lg < 32,
        size as nat == pow2(lg),
        size as int == mask as int + 1,
    ensures
        (x & mask) as int == x as int % size as int,
{
    lemma_u32_low_bits_mask_is_mod(x, lg);
    assert(low_bits_mask(lg) == mask as nat);
}

/// Reducing modulo 2^32 and then modulo a power of two that divides it
/// is the same as reducing modulo that power of two directly.
proof fn lemma_wrapped_mod_capacity(x: nat, lg: nat)
    requires
        lg < 32,
    ensures
        (x as int % 0x1_0000_0000) % (pow2(lg) as int) == x as int % (pow2(lg) as int),
{
    lemma2_to64();
    lemma_pow2_adds(lg, (32 - lg) as nat);
    lemma_pow2_pos(lg);
    lemma_pow2_pos((32 - lg) as nat);
    lemma_mod_mod(x as int, pow2(lg) as int, pow2((32 - lg) as nat) as int);
}

} // verus!
