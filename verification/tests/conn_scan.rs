use vrypt::config::BUF_SIZE;
use vrypt::conn::Conn;

fn fresh(resp_len: usize) -> Conn {
    Conn::new(resp_len, vec![0u8; BUF_SIZE], 0)
}

#[test]
fn terminator_found_in_one_chunk() {
    let mut c = fresh(93);
    c.fill(b"GET / HTTP/1.1\r\nHost: x\r\n\r\n");
    assert!(c.request_complete());
}

#[test]
fn no_terminator_means_incomplete() {
    let mut c = fresh(93);
    c.fill(b"GET / HTTP/1.1\r\nHost: x\r\n");
    assert!(!c.request_complete());
    c.fill(&[b'a'; 100]);
    assert!(!c.request_complete());
}

#[test]
fn terminator_split_across_reads_is_found() {
    let mut c = fresh(93);
    c.fill(b"GET / HTTP/1.1\r\nHost: x\r");
    assert!(!c.request_complete());
    c.fill(b"\n\r");
    assert!(!c.request_complete());
    c.fill(b"\n");
    assert!(c.request_complete(), "span crossing three reads must be seen");
}

#[test]
fn terminator_at_buffer_start() {
    let mut c = fresh(93);
    c.fill(b"\r\n\r\n");
    assert!(c.request_complete());
}

#[test]
fn lone_crlf_pairs_are_not_a_terminator() {
    let mut c = fresh(93);
    c.fill(b"\r\nabc\r\ndef\r\n");
    assert!(!c.request_complete());
}

#[test]
fn rescan_does_not_forget_earlier_bytes() {
    // The incremental scan must still report completion when asked again
    // after more bytes arrive, even though it resumes mid-buffer.
    let mut c = fresh(93);
    c.fill(b"abcdefgh");
    assert!(!c.request_complete());
    c.fill(b"ijklmnop");
    assert!(!c.request_complete());
    c.fill(b"\r\n\r\nrest");
    assert!(c.request_complete());
}

#[test]
fn arm_write_resets_read_state() {
    let mut c = fresh(93);
    c.fill(b"GET / HTTP/1.1\r\n\r\n");
    assert!(c.request_complete());
    assert!(!c.has_pending_write());
    c.arm_write();
    assert_eq!(c.read_len(), 0, "read buffer cleared before the write arms");
    assert_eq!(c.write_pos(), Some(0));
    assert!(c.has_pending_write());
}

#[test]
fn write_cursor_walks_to_completion() {
    let mut c = fresh(10);
    c.arm_write();
    c.advance_write(4);
    assert_eq!(c.write_pos(), Some(4));
    assert!(c.has_pending_write());
    c.advance_write(6);
    assert_eq!(c.write_pos(), Some(10));
    assert!(!c.has_pending_write(), "nothing pending once fully written");
    c.reset_for_read();
    assert_eq!(c.write_pos(), None, "back to the reading phase");
}

#[test]
fn touch_bumps_generation_and_timestamp() {
    let mut c = fresh(93);
    assert_eq!(c.generation(), 0);
    c.touch(1000);
    assert_eq!(c.generation(), 1);
    c.touch(2500);
    assert_eq!(c.generation(), 2);
    assert!(!c.is_timed_out(2500));
    assert!(!c.is_timed_out(2500 + 30000));
    assert!(c.is_timed_out(2500 + 30001));
}
