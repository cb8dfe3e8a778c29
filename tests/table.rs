use aeiou::computation::settle;
use aeiou::table::Table;
use aeiou::{Context, Step};

#[test]
fn insert_keeps_ids_ascending() {
    let mut t: Table<&str> = Table::new();
    t.insert(3, "c");
    t.insert(1, "a");
    t.insert(2, "b");
    assert_eq!(t.task_ids(), vec![1, 2, 3]);
    assert_eq!(t.len(), 3);
    assert_eq!(t.id_at(0), 1);
}

#[test]
fn insert_with_same_id_replaces() {
    let mut t: Table<&str> = Table::new();
    t.insert(5, "old");
    t.insert(9, "other");
    t.insert(5, "new");
    assert_eq!(t.task_ids(), vec![5, 9]);
    assert_eq!(t.remove(0), (5, "new"));
    assert_eq!(t.task_ids(), vec![9]);
}

#[test]
fn remove_and_restore_keep_order() {
    let mut t: Table<u8> = Table::new();
    t.insert(u64::MAX, 2);
    t.insert(0, 1);
    let e = t.remove(1);
    assert_eq!(e, (u64::MAX, 2));
    t.restore(1, e);
    assert_eq!(t.task_ids(), vec![0, u64::MAX]);
}

#[test]
fn settle_answer_fills_mailbox() {
    let mut c: Context<u32> = Context::empty();
    c.put(1);
    let r: Step<&str> = settle(Ok(7), &mut c);
    assert_eq!(r, Step::Busy);
    assert_eq!(c.take(), Some(7));
}

#[test]
fn settle_decline_surfaces_request() {
    let mut c: Context<u32> = Context::empty();
    c.put(1);
    let r = settle(Err("read"), &mut c);
    assert_eq!(r, Step::Yielded("read"));
    assert_eq!(c.take(), Some(1));
}
