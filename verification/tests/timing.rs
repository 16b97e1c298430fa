use vrypt::timer::TimerWheel;

#[test]
fn entry_stays_until_timeout_elapses() {
    // A 30 s timeout occupies 31 one-second slots, so the entry pops once
    // 31 whole seconds have passed: within the documented one-second
    // tolerance above the nominal timeout.
    let mut w = TimerWheel::new(30_000, 0);
    w.add(7, 0);
    let mut out = Vec::new();
    w.advance(30_999, &mut out);
    assert!(out.is_empty(), "30.999 s elapsed: not yet due");
    w.advance(31_000, &mut out);
    assert_eq!(out.len(), 1);
    assert_eq!(out[0].token, 7);
    assert_eq!(out[0].generation, 0);
}

#[test]
fn entry_pops_exactly_once() {
    let mut w = TimerWheel::new(30_000, 0);
    w.add(9, 4);
    let mut out = Vec::new();
    w.advance(40_000, &mut out);
    assert_eq!(out.len(), 1);
    out.clear();
    w.advance(200_000, &mut out);
    assert!(out.is_empty(), "a drained slot stays empty");
}

#[test]
fn big_gap_drains_every_slot() {
    let mut w = TimerWheel::new(30_000, 0);
    w.add(1, 0);
    w.add(2, 0);
    let mut out = Vec::new();
    // Far more than a full turn elapses in one poll gap; the wheel catches
    // up a full turn per call and must still produce every entry once.
    w.advance(1_000_000, &mut out);
    let mut tokens: Vec<usize> = out.iter().map(|e| e.token).collect();
    tokens.sort();
    assert_eq!(tokens, vec![1, 2]);
}

#[test]
fn entries_added_at_different_times_come_due_in_turn() {
    let mut w = TimerWheel::new(30_000, 0);
    w.add(1, 0);
    let mut out = Vec::new();
    w.advance(10_000, &mut out);
    assert!(out.is_empty());
    w.add(2, 0); // due 31 s after the 10 s mark
    w.advance(31_000, &mut out);
    assert_eq!(out.len(), 1);
    assert_eq!(out[0].token, 1);
    out.clear();
    w.advance(41_000, &mut out);
    assert_eq!(out.len(), 1);
    assert_eq!(out[0].token, 2);
}
