use ring_reactor::token::{decode_token, encode_token, OpKind};

#[test]
fn round_trip_accept() {
    let t = encode_token(OpKind::Accept, 0);
    assert_eq!(decode_token(t), (Some(OpKind::Accept), 0));
}

#[test]
fn round_trip_recv() {
    let t = encode_token(OpKind::Recv, 9999);
    assert_eq!(decode_token(t), (Some(OpKind::Recv), 9999));
}

#[test]
fn round_trip_send_max_slot() {
    let t = encode_token(OpKind::Send, u32::MAX);
    assert_eq!(decode_token(t), (Some(OpKind::Send), u32::MAX));
}

#[test]
fn kinds_are_distinct() {
    let a = encode_token(OpKind::Accept, 7);
    let r = encode_token(OpKind::Recv, 7);
    let s = encode_token(OpKind::Send, 7);
    assert_ne!(a, r);
    assert_ne!(a, s);
    assert_ne!(r, s);
}

#[test]
fn unknown_kind_decodes_to_none() {
    // kind code 0 and kind codes above 3 belong to no operation
    assert_eq!(decode_token(42), (None, 42));
    let t = (9u64 << 32) | 5;
    assert_eq!(decode_token(t), (None, 5));
}
