use ring_reactor::classify::{response_bytes, ResponseKind};
use ring_reactor::reactor::Reactor;
use ring_reactor::ring::{Cqe, Sqe, OP_ACCEPT, OP_RECV, OP_SEND};
use ring_reactor::token::{decode_token, OpKind};

const HELLO: &[u8] = b"HTTP/1.1 200 OK\r\nContent-Type: text/plain\r\nContent-Length: 13\r\nConnection: keep-alive\r\n\r\nHello, World!";
const NOT_FOUND: &[u8] = b"HTTP/1.1 404 Not Found\r\nContent-Type: text/plain\r\nContent-Length: 9\r\nConnection: keep-alive\r\n\r\nNot Found";

/// Completes an accept: hands the reactor a new socket handle, drains,
/// and returns the receive descriptor that must now be queued.
fn connect(r: &mut Reactor, new_fd: i32) -> Sqe {
    let mut accept_sqe = None;
    while let Some(s) = r.sq.pop() {
        if s.opcode == OP_ACCEPT {
            accept_sqe = Some(s);
            break;
        }
    }
    let accept_sqe = accept_sqe.expect("an accept is outstanding");
    assert!(r.cq.submit(Cqe { user_data: accept_sqe.user_data, res: new_fd }));
    let closes = r.drain_completions();
    assert!(closes.is_empty(), "a fresh connection must not be closed");
    let mut recv_sqe = None;
    while let Some(s) = r.sq.pop() {
        if s.opcode == OP_RECV {
            recv_sqe = Some(s);
            break;
        }
    }
    recv_sqe.expect("a receive is queued after a successful accept")
}

/// Delivers request bytes for an outstanding receive, drains, and
/// returns the send descriptor that must now be queued.
fn request(r: &mut Reactor, recv_sqe: &Sqe, req: &[u8]) -> Sqe {
    let (kind, slot) = decode_token(recv_sqe.user_data);
    assert_eq!(kind, Some(OpKind::Recv));
    let data = req.to_vec();
    r.table.fill_buffer(slot as usize, &data);
    assert!(r.cq.submit(Cqe { user_data: recv_sqe.user_data, res: data.len() as i32 }));
    let closes = r.drain_completions();
    assert!(closes.is_empty(), "a served connection must stay open");
    let mut send_sqe = None;
    while let Some(s) = r.sq.pop() {
        if s.opcode == OP_SEND {
            send_sqe = Some(s);
            break;
        }
    }
    send_sqe.expect("a send is queued after a received request")
}

#[test]
fn hello_request_gets_full_hello_response() {
    let mut r = Reactor::new(3, 8, 4, 64);
    r.startup(2);
    let recv_sqe = connect(&mut r, 10);
    assert_eq!(recv_sqe.fd, 10);
    assert_eq!(recv_sqe.len, 64);
    let send_sqe = request(&mut r, &recv_sqe, b"GET / HTTP/1.1\r\n\r\n");
    assert_eq!(send_sqe.fd, 10);
    assert_eq!(send_sqe.resp, Some(ResponseKind::Hello));
    // the bytes that go on the wire, byte for byte
    assert_eq!(response_bytes(send_sqe.resp.unwrap()).as_slice(), HELLO);
}

#[test]
fn unknown_path_gets_not_found_response() {
    let mut r = Reactor::new(3, 8, 4, 64);
    r.startup(1);
    let recv_sqe = connect(&mut r, 11);
    let send_sqe = request(&mut r, &recv_sqe, b"GET /nope HTTP/1.1\r\n\r\n");
    assert_eq!(send_sqe.resp, Some(ResponseKind::NotFound));
    assert_eq!(response_bytes(send_sqe.resp.unwrap()).as_slice(), NOT_FOUND);
}

#[test]
fn keep_alive_serves_two_requests_on_one_connection() {
    let mut r = Reactor::new(3, 8, 4, 64);
    r.startup(1);
    let recv_sqe = connect(&mut r, 10);

    // first request / first response
    let send_sqe = request(&mut r, &recv_sqe, b"GET / HTTP/1.1\r\n\r\n");
    assert_eq!(send_sqe.resp, Some(ResponseKind::Hello));
    let wire = response_bytes(send_sqe.resp.unwrap());
    assert!(r.cq.submit(Cqe { user_data: send_sqe.user_data, res: wire.len() as i32 }));
    let closes = r.drain_completions();
    assert!(closes.is_empty(), "the connection stays open between requests");

    // the reactor queued the next receive on the same socket
    let recv_sqe2 = r.sq.pop().expect("receive queued after a completed send");
    assert_eq!(recv_sqe2.opcode, OP_RECV);
    assert_eq!(recv_sqe2.fd, 10);

    // second request / second response, still no close
    let send_sqe2 = request(&mut r, &recv_sqe2, b"GET /json HTTP/1.1\r\n\r\n");
    assert_eq!(send_sqe2.fd, 10);
    assert_eq!(send_sqe2.resp, Some(ResponseKind::Json));
}

#[test]
fn accepts_beyond_capacity_close_the_excess_socket() {
    // one connection slot only
    let mut r = Reactor::new(3, 8, 1, 64);
    r.startup(2);

    // first connection takes the only slot
    let recv_sqe = connect(&mut r, 10);
    assert_eq!(recv_sqe.fd, 10);

    // second connection finds the pool exhausted: the just-accepted
    // socket is closed immediately, and no slot is touched
    r.startup(1);
    let mut accept_sqe = None;
    while let Some(s) = r.sq.pop() {
        if s.opcode == OP_ACCEPT {
            accept_sqe = Some(s);
            break;
        }
    }
    let accept_sqe = accept_sqe.expect("accept pipeline refilled");
    assert!(r.cq.submit(Cqe { user_data: accept_sqe.user_data, res: 11 }));
    let closes = r.drain_completions();
    assert_eq!(closes, vec![11]);
    assert_eq!(r.table.free_len(), 0);
    assert!(r.table.is_active(0));
    assert_eq!(r.table.slot_fd(0), 10);

    // and the accept pipeline was still refilled
    let replacement = r.sq.pop().expect("replacement accept");
    assert_eq!(replacement.opcode, OP_ACCEPT);
}

#[test]
fn peer_close_releases_the_slot() {
    let mut r = Reactor::new(3, 8, 2, 64);
    r.startup(1);
    let recv_sqe = connect(&mut r, 10);
    // a zero-length receive means the peer closed the connection
    assert!(r.cq.submit(Cqe { user_data: recv_sqe.user_data, res: 0 }));
    let closes = r.drain_completions();
    assert_eq!(closes, vec![10]);
    assert_eq!(r.table.free_len(), 2);
}

#[test]
fn failed_send_releases_the_slot() {
    let mut r = Reactor::new(3, 8, 2, 64);
    r.startup(1);
    let recv_sqe = connect(&mut r, 10);
    let send_sqe = request(&mut r, &recv_sqe, b"GET /ping HTTP/1.1\r\n\r\n");
    assert_eq!(send_sqe.resp, Some(ResponseKind::Ping));
    // the send fails: the connection is torn down
    assert!(r.cq.submit(Cqe { user_data: send_sqe.user_data, res: -32 }));
    let closes = r.drain_completions();
    assert_eq!(closes, vec![10]);
    assert_eq!(r.table.free_len(), 2);
}

#[test]
fn failed_accept_still_refills_the_pipeline() {
    let mut r = Reactor::new(3, 4, 2, 64);
    r.startup(1);
    let accept_sqe = r.sq.pop().expect("accept");
    assert_eq!(accept_sqe.opcode, OP_ACCEPT);
    // the accept itself failed: nothing to close, no slot taken, but a
    // replacement accept must be queued so connections never starve
    assert!(r.cq.submit(Cqe { user_data: accept_sqe.user_data, res: -11 }));
    let closes = r.drain_completions();
    assert!(closes.is_empty());
    assert_eq!(r.table.free_len(), 2);
    let replacement = r.sq.pop().expect("replacement accept");
    assert_eq!(replacement.opcode, OP_ACCEPT);
    assert!(r.sq.pop().is_none());
}

#[test]
fn unrecognized_token_kind_is_ignored() {
    let mut r = Reactor::new(3, 4, 2, 64);
    assert!(r.cq.submit(Cqe { user_data: 0xABCD_0000_0000_0007, res: 1 }));
    let closes = r.drain_completions();
    assert!(closes.is_empty());
    assert!(r.sq.pop().is_none());
    assert_eq!(r.table.free_len(), 2);
}

#[test]
fn startup_is_bounded_by_ring_capacity() {
    let mut r = Reactor::new(3, 4, 2, 64);
    r.startup(100);
    // only as many accepts as the submission ring can hold
    assert_eq!(r.sq.outstanding(), 4);
    let mut n = 0;
    while let Some(s) = r.sq.pop() {
        assert_eq!(s.opcode, OP_ACCEPT);
        assert_eq!(s.fd, 3);
        n += 1;
    }
    assert_eq!(n, 4);
}

#[test]
fn full_submission_ring_releases_fresh_slot() {
    // a one-entry submission ring: the replacement accept fills it, so
    // the receive for the new connection cannot be queued and the slot
    // must be released (and the socket closed) right away
    let mut r = Reactor::new(3, 1, 2, 64);
    let token = ring_reactor::token::encode_token(OpKind::Accept, 0);
    assert!(r.cq.submit(Cqe { user_data: token, res: 10 }));
    let closes = r.drain_completions();
    assert_eq!(closes, vec![10]);
    assert_eq!(r.table.free_len(), 2);
    // the replacement accept is what filled the ring
    let only = r.sq.pop().expect("replacement accept");
    assert_eq!(only.opcode, OP_ACCEPT);
    assert!(r.sq.pop().is_none());
}
