use vrypt::config::{BUF_SIZE, MAX_RECYCLED_BUFS};
use vrypt::http::build_response;
use vrypt::reactor::{AdmitOutcome, Reactor};

const REQUEST: &[u8] = b"GET / HTTP/1.1\r\nHost: x\r\n\r\n";

fn admitted_token(r: &mut Reactor, now: u64) -> usize {
    match r.try_admit(now) {
        AdmitOutcome::Admitted(t) => t,
        other => panic!("expected admission, got {other:?}"),
    }
}

/// Drive one full request through a live connection: read burst, arm,
/// write burst. Returns the bytes "sent".
fn serve_one(r: &mut Reactor, tok: usize, response: &[u8], now: u64) -> Vec<u8> {
    r.touch_and_schedule(tok, now);
    assert!(!r.has_pending_write(tok));
    assert!(r.read_room(tok) >= REQUEST.len());
    assert!(!r.feed(tok, REQUEST), "an ordinary request is not oversized");
    assert!(r.try_arm(tok), "request is complete, write must arm");
    let mut sent = Vec::new();
    while r.has_pending_write(tok) {
        let pos = r.write_pos_value(tok);
        // Pretend the socket took 10 bytes at most per write call.
        let n = (response.len() - pos).min(10);
        sent.extend_from_slice(&response[pos..pos + n]);
        let done = r.on_wrote(tok, n);
        assert_eq!(done, pos + n == response.len());
    }
    sent
}

#[test]
fn single_request_gets_whole_response() {
    let response = build_response(b"Vrypt");
    let mut r = Reactor::new(response.len(), 16, 4, 0);
    let tok = admitted_token(&mut r, 0);
    assert_eq!(r.active_conns(), 1);
    let sent = serve_one(&mut r, tok, &response, 5);
    assert_eq!(sent, response, "exactly the fixed response goes out");
    assert_eq!(r.completed(), 1);
    assert!(r.occupied(tok), "connection stays open (keep-alive)");
    assert!(!r.has_pending_write(tok), "back to reading");
}

#[test]
fn pipelined_requests_count_twice() {
    let response = build_response(b"Vrypt");
    let mut r = Reactor::new(response.len(), 16, 4, 0);
    let tok = admitted_token(&mut r, 0);
    let first = serve_one(&mut r, tok, &response, 1);
    let second = serve_one(&mut r, tok, &response, 2);
    assert_eq!(first, response);
    assert_eq!(second, response, "responses come in order, one per request");
    assert_eq!(r.completed(), 2, "counter rises by two");
}

#[test]
fn partial_request_then_completion() {
    let response = build_response(b"Vrypt");
    let mut r = Reactor::new(response.len(), 16, 4, 0);
    let tok = admitted_token(&mut r, 0);
    r.touch_and_schedule(tok, 1);
    assert!(!r.feed(tok, b"GET / HTTP/1.1\r\n"));
    assert!(!r.try_arm(tok), "no terminator yet");
    assert!(!r.has_pending_write(tok));
    r.touch_and_schedule(tok, 101);
    assert!(!r.feed(tok, b"Host: x\r\n\r\n"));
    assert!(r.try_arm(tok));
    assert_eq!(r.read_room(tok), BUF_SIZE, "read buffer cleared before write arms");
    assert!(r.on_wrote(tok, response.len()));
    assert_eq!(r.completed(), 1);
}

#[test]
fn oversized_request_closes_and_pools_return_to_baseline() {
    let response = build_response(b"Vrypt");
    let mut r = Reactor::new(response.len(), 16, 4, 0);
    let tok = admitted_token(&mut r, 0);
    r.touch_and_schedule(tok, 1);
    let chunk = vec![b'a'; 4096];
    loop {
        let room = r.read_room(tok);
        assert!(room > 0, "the oversize verdict comes before the buffer fills");
        let n = room.min(chunk.len());
        let oversized = r.feed(tok, &chunk[..n]);
        if oversized {
            r.mark_close(tok);
            break;
        }
        assert!(!r.try_arm(tok), "non-terminator bytes never complete a request");
    }
    assert_eq!(r.completed(), 0, "no response was produced");
    let closes = r.take_close_list();
    assert_eq!(closes, vec![tok]);
    assert!(r.close_now(tok));
    assert!(!r.occupied(tok), "slab slot freed");
    assert_eq!(r.active_conns(), 0, "buffer accounting back to baseline");
}

#[test]
fn admission_cap_rejects_but_does_not_drift() {
    let response = build_response(b"Vrypt");
    let mut r = Reactor::new(response.len(), 3, 2, 0);
    let a = admitted_token(&mut r, 0);
    let b = admitted_token(&mut r, 0);
    let c = admitted_token(&mut r, 0);
    assert_eq!(r.active_conns(), 3);
    assert_eq!(r.try_admit(0), AdmitOutcome::BuffersExhausted);
    assert_eq!(r.active_conns(), 3, "failed admission changes no accounting");
    // In-flight traffic is unaffected by the rejected connection.
    let sent = serve_one(&mut r, b, &response, 1);
    assert_eq!(sent, response);
    for tok in [a, b, c] {
        assert!(r.close_now(tok));
    }
    assert_eq!(r.active_conns(), 0, "no pool accounting drift");
    let d = admitted_token(&mut r, 2);
    assert!(r.occupied(d), "admission works again after closes");
}

#[test]
fn idle_timeout_closes_untouched_connection() {
    let response = build_response(b"Vrypt");
    let mut r = Reactor::new(response.len(), 16, 4, 0);
    let tok = admitted_token(&mut r, 0);
    r.drain_due(29_000);
    assert!(r.take_close_list().is_empty(), "still within the idle cap");
    r.drain_due(32_000);
    let closes = r.take_close_list();
    assert_eq!(closes, vec![tok], "idle past the cap (plus wheel tolerance)");
    assert!(r.close_now(tok));
    assert!(!r.occupied(tok), "slab slot freed");
    assert_eq!(r.active_conns(), 0, "token and buffer returned");
}

#[test]
fn touch_makes_old_timeout_entries_stale() {
    let response = build_response(b"Vrypt");
    let mut r = Reactor::new(response.len(), 16, 4, 0);
    let tok = admitted_token(&mut r, 0);
    r.drain_due(29_000);
    assert!(r.take_close_list().is_empty());
    // Activity at 29 s: the admission-time entry becomes stale.
    r.touch_and_schedule(tok, 29_000);
    r.drain_due(32_000);
    assert!(
        r.take_close_list().is_empty(),
        "the stale entry pops but must be discarded: the connection was touched"
    );
    assert!(r.occupied(tok));
    // No further activity: the fresh entry comes due in its turn.
    r.drain_due(61_000);
    assert_eq!(r.take_close_list(), vec![tok]);
    assert!(r.close_now(tok));
    assert_eq!(r.active_conns(), 0);
}

#[test]
fn close_of_empty_slot_is_a_noop() {
    let response = build_response(b"Vrypt");
    let mut r = Reactor::new(response.len(), 4, 2, 0);
    let tok = admitted_token(&mut r, 0);
    r.mark_close(tok);
    r.mark_close(tok);
    let closes = r.take_close_list();
    assert_eq!(closes, vec![tok, tok], "a token may be queued twice");
    assert!(r.close_now(tok));
    assert!(!r.close_now(tok), "second close finds the slot empty");
    assert_eq!(r.active_conns(), 0, "no double reclaim");
}

#[test]
fn recycled_buffers_keep_admissions_working() {
    let response = build_response(b"Vrypt");
    let mut r = Reactor::new(response.len(), 2, MAX_RECYCLED_BUFS, 0);
    for round in 0..5u64 {
        let tok = admitted_token(&mut r, round);
        let sent = serve_one(&mut r, tok, &response, round);
        assert_eq!(sent, response);
        assert!(r.close_now(tok));
        assert_eq!(r.active_conns(), 0);
    }
    assert_eq!(r.completed(), 5);
}
