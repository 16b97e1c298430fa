use vrypt::config::{BUF_SIZE, MAX_CONNS};
use vrypt::pool::{BufPool, TokenPool};

#[test]
fn buf_pool_acquire_caps_active() {
    let mut p = BufPool::new(2, 1);
    assert_eq!(p.active(), 0);
    let a = p.acquire().expect("first acquire");
    assert_eq!(a.len(), BUF_SIZE);
    assert_eq!(p.active(), 1);
    let b = p.acquire().expect("second acquire");
    assert_eq!(p.active(), 2);
    assert!(p.acquire().is_none());
    assert_eq!(p.active(), 2);
    assert!(p.release(a));
    assert_eq!(p.active(), 1);
    assert!(p.release(b));
    assert_eq!(p.active(), 0);
}

#[test]
fn buf_pool_double_release_clamps_at_zero() {
    let mut p = BufPool::new(4, 4);
    let a = p.acquire().unwrap();
    assert!(p.release(a));
    assert_eq!(p.active(), 0);
    let stray = vec![0u8; BUF_SIZE];
    assert!(!p.release(stray));
    assert_eq!(p.active(), 0);
}

#[test]
fn buf_pool_conservation_over_sequence() {
    let mut p = BufPool::new(8, 2);
    let mut loaned = Vec::new();
    for _ in 0..5 {
        loaned.push(p.acquire().unwrap());
        assert_eq!(p.active(), loaned.len());
    }
    for _ in 0..3 {
        let b = loaned.pop().unwrap();
        assert!(p.release(b));
        assert_eq!(p.active(), loaned.len());
    }
    loaned.push(p.acquire().unwrap());
    assert_eq!(p.active(), loaned.len());
    while let Some(b) = loaned.pop() {
        assert!(p.release(b));
        assert_eq!(p.active(), loaned.len());
    }
    assert_eq!(p.active(), 0);
}

#[test]
fn buf_pool_recycled_buffers_are_zeroed() {
    let mut p = BufPool::new(1, 1);
    let mut a = p.acquire().unwrap();
    assert!(a.iter().all(|&x| x == 0));
    a[0] = 7;
    a[BUF_SIZE - 1] = 9;
    assert!(p.release(a));
    let b = p.acquire().unwrap();
    assert_eq!(b.len(), BUF_SIZE);
    assert!(b.iter().all(|&x| x == 0));
}

#[test]
fn token_pool_never_hands_out_zero_or_duplicates() {
    let mut p = TokenPool::new();
    let mut seen = vec![false; MAX_CONNS];
    for _ in 1..MAX_CONNS {
        let t = p.acquire().expect("token available");
        assert!(t >= 1 && t < MAX_CONNS, "token {t} out of range");
        assert!(!seen[t], "token {t} handed out twice");
        seen[t] = true;
    }
    assert!(p.acquire().is_none(), "id space must be exhausted");
}

#[test]
fn token_pool_release_and_reuse() {
    let mut p = TokenPool::new();
    let a = p.acquire().unwrap();
    let b = p.acquire().unwrap();
    assert_ne!(a, b);
    assert!(p.release(a));
    let c = p.acquire().unwrap();
    assert_eq!(c, a, "released id is reused from the stack");
    assert!(p.release(b));
    assert!(p.release(c));
}

#[test]
fn token_pool_rejects_bad_releases() {
    let mut p = TokenPool::new();
    assert!(!p.release(0), "token 0 is reserved for the listener");
    assert!(!p.release(MAX_CONNS), "out of range");
    assert!(!p.release(usize::MAX), "out of range");
    assert!(!p.release(3), "never acquired");
    let t = p.acquire().unwrap();
    assert!(p.release(t));
    assert!(!p.release(t), "double release detected");
    let u = p.acquire().unwrap();
    assert_eq!(u, t);
}
