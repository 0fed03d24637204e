//! Operation tokens: the opaque 64-bit value attached to every submitted
//! operation and echoed back on its completion. The high 32 bits carry the
//! operation kind, the low 32 bits a connection-slot index. Encoding and
//! decoding happen only here, never by bit arithmetic at call sites.

use vstd::prelude::*;

verus! {

/// The kind of operation a descriptor asks for.
#[derive(Clone, Copy, PartialEq, Eq, Structural, Debug)]
pub enum OpKind {
    Accept,
    Recv,
    Send,
}

/// The numeric code stored in the high half of a token.
pub open spec fn kind_code(k: OpKind) -> u64 {
    match k {
        OpKind::Accept => 1,
        OpKind::Recv => 2,
        OpKind::Send => 3,
    }
}

/// The token that `encode_token` builds for a kind and a slot index.
pub open spec fn spec_encode_token(k: OpKind, slot: u32) -> u64 {
    (kind_code(k) * 0x1_0000_0000 + slot) as u64
}

/// The kind half of a token; `None` for codes no kind uses.
pub open spec fn spec_token_kind(t: u64) -> Option<OpKind> {
    if t / 0x1_0000_0000 == 1 {
        Some(OpKind::Accept)
    } else if t / 0x1_0000_0000 == 2 {
        Some(OpKind::Recv)
    } else if t / 0x1_0000_0000 == 3 {
        Some(OpKind::Send)
    } else {
        None
    }
}

/// The slot half of a token.
pub open spec fn spec_token_slot(t: u64) -> u64 {
    t % 0x1_0000_0000
}

/// Packs an operation kind and a slot index into one token.
pub fn encode_token(kind: OpKind, slot: u32) -> (t: u64)
    ensures
        t == spec_encode_token(kind, slot),
{
    let code: u64 = match kind {
        OpKind::Accept => 1,
        OpKind::Recv => 2,
        OpKind::Send => 3,
    };
    let t: u64 = (code << 32u64) | (slot as u64);
    proof {
        assert((code << 32u64) | (slot as u64) == code * 0x1_0000_0000 + slot) by (bit_vector)
            requires
                1 <= code <= 3,
        ;
    }
    t
}

/// Splits a token into its kind and its slot index.
pub fn decode_token(t: u64) -> (r: (Option<OpKind>, u32))
    ensures
        r.0 == spec_token_kind(t),
        r.1 == spec_token_slot(t),
{
    let hi: u64 = t >> 32u64;
    let lo: u32 = (t & 0xFFFF_FFFF) as u32;
    proof {
        assert(t >> 32u64 == t / 0x1_0000_0000 && (t & 0xFFFF_FFFF) as u32 == t % 0x1_0000_0000)
            by (bit_vector);
    }
    let kind: Option<OpKind> = if hi == 1 {
        Some(OpKind::Accept)
    } else if hi == 2 {
        Some(OpKind::Recv)
    } else if hi == 3 {
        Some(OpKind::Send)
    } else {
        None
    };
    (kind, lo)
}

/// Decoding inverts encoding: every token built from a kind and a slot
/// index comes back as exactly that kind and that slot index.
pub proof fn lemma_token_round_trip(kind: OpKind, slot: u32)
    ensures
        spec_token_kind(spec_encode_token(kind, slot)) == Some(kind),
        spec_token_slot(spec_encode_token(kind, slot)) == slot,
{
    let code = kind_code(kind);
    let t = spec_encode_token(kind, slot);
    assert(t == code * 0x1_0000_0000 + slot);
    assert(t / 0x1_0000_0000 == code && t % 0x1_0000_0000 == slot) by (nonlinear_arith)
        requires
            t == code * 0x1_0000_0000 + slot,
            1 <= code <= 3,
            slot < 0x1_0000_0000,
    ;
}

} // verus!
