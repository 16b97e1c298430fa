use vrypt::config::BUF_SIZE;
use vrypt::conn::Conn;
use vrypt::slab::Slab;

fn conn_with_generation(g: u64) -> Conn {
    let mut c = Conn::new(93, vec![0u8; BUF_SIZE], 0);
    for _ in 0..g {
        c.touch(1);
    }
    c
}

#[test]
fn insert_then_get_finds_the_record() {
    let mut s = Slab::new(8);
    s.insert(3, conn_with_generation(5));
    let got = s.get(3).expect("slot 3 is occupied");
    assert_eq!(got.generation(), 5, "get returns the inserted record");
    assert!(s.get(2).is_none());
}

#[test]
fn remove_then_get_finds_nothing() {
    let mut s = Slab::new(8);
    s.insert(3, conn_with_generation(2));
    let removed = s.remove(3).expect("remove hands the record back");
    assert_eq!(removed.generation(), 2);
    assert!(s.get(3).is_none(), "the slot is empty after remove");
    assert!(s.remove(3).is_none(), "a second remove finds nothing");
}

#[test]
fn get_mut_edits_in_place() {
    let mut s = Slab::new(4);
    s.insert(1, conn_with_generation(0));
    s.get_mut(1).touch(42);
    assert_eq!(s.get(1).unwrap().generation(), 1);
}

#[test]
fn occupied_tokens_listed_in_order() {
    let mut s = Slab::new(8);
    s.insert(5, conn_with_generation(0));
    s.insert(1, conn_with_generation(0));
    s.insert(6, conn_with_generation(0));
    assert_eq!(s.tokens(), vec![1, 5, 6]);
    s.remove(5);
    assert_eq!(s.tokens(), vec![1, 6]);
    assert_eq!(s.len(), 8);
}
