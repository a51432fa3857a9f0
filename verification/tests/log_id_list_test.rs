use openraft::log_id::LogId;
use openraft::log_id_list::LogIdList;
use openraft::testing::log_id;

fn list() -> LogIdList {
    LogIdList::new(vec![log_id(2, 2), log_id(4, 4), log_id(4, 6)])
}

#[test]
fn test_log_id_list_get() {
    let ids = list();
    assert_eq!(None, ids.get(0));
    assert_eq!(None, ids.get(1));
    assert_eq!(Some(log_id(2, 2)), ids.get(2));
    assert_eq!(Some(log_id(2, 3)), ids.get(3));
    assert_eq!(Some(log_id(4, 4)), ids.get(4));
    assert_eq!(Some(log_id(4, 5)), ids.get(5));
    assert_eq!(Some(log_id(4, 6)), ids.get(6));
    assert_eq!(None, ids.get(7));
    assert_eq!(None, LogIdList::new(vec![]).get(0));
}

#[test]
fn test_log_id_list_first_last() {
    let ids = list();
    assert_eq!(Some(&log_id(2, 2)), ids.first());
    assert_eq!(Some(&log_id(4, 6)), ids.last());
    let empty = LogIdList::new(vec![]);
    assert_eq!(None, empty.first());
    assert_eq!(None, empty.last());
}

#[test]
fn test_log_id_list_purge() {
    // below the first key: nothing changes
    let mut ids = list();
    ids.purge(&log_id(1, 1));
    assert_eq!(&[log_id(2, 2), log_id(4, 4), log_id(4, 6)], ids.key_log_ids());

    // inside a leader: the first key moves
    let mut ids = list();
    ids.purge(&log_id(2, 3));
    assert_eq!(&[log_id(2, 3), log_id(4, 4), log_id(4, 6)], ids.key_log_ids());

    // at a key
    let mut ids = list();
    ids.purge(&log_id(4, 4));
    assert_eq!(&[log_id(4, 4), log_id(4, 6)], ids.key_log_ids());

    // beyond the last log id
    let mut ids = list();
    ids.purge(&log_id(5, 9));
    assert_eq!(&[log_id(5, 9)], ids.key_log_ids());

    // an empty list
    let mut ids = LogIdList::new(vec![]);
    ids.purge(&log_id(1, 0));
    assert_eq!(&[log_id(1, 0)], ids.key_log_ids());
}

#[test]
fn test_log_id_list_purge_twice_is_purge_once() {
    let mut once = list();
    once.purge(&log_id(4, 5));
    let mut twice = list();
    twice.purge(&log_id(4, 5));
    twice.purge(&log_id(4, 5));
    assert_eq!(once.key_log_ids(), twice.key_log_ids());
    assert_eq!(&[log_id(4, 5), log_id(4, 6)], twice.key_log_ids());
}

#[test]
fn test_log_id_list_append() {
    let mut ids = LogIdList::new(vec![]);
    ids.append(log_id(1, 2));
    assert_eq!(&[log_id(1, 2)], ids.key_log_ids());

    // the second log id of a leader is the last log id
    ids.append(log_id(1, 3));
    assert_eq!(&[log_id(1, 2), log_id(1, 3)], ids.key_log_ids());

    // the last log id is replaced where it does not begin a leader
    ids.append(log_id(1, 4));
    assert_eq!(&[log_id(1, 2), log_id(1, 4)], ids.key_log_ids());

    // a gap is filled with log ids of the leader before it
    ids.append(log_id(2, 6));
    assert_eq!(&[log_id(1, 2), log_id(2, 6)], ids.key_log_ids());
    assert_eq!(Some(log_id(1, 5)), ids.get(5));
    assert_eq!(Some(log_id(2, 6)), ids.get(6));

    ids.append(log_id(2, 7));
    assert_eq!(&[log_id(1, 2), log_id(2, 6), log_id(2, 7)], ids.key_log_ids());
}

#[test]
fn test_log_id_list_truncate() {
    let make = || {
        LogIdList::new(vec![
            log_id(2, 2),
            log_id(3, 3),
            log_id(6, 6),
            log_id(9, 9),
            log_id(9, 11),
        ])
    };

    let mut ids = make();
    ids.truncate(3);
    assert_eq!(&[log_id(2, 2)], ids.key_log_ids());

    let mut ids = make();
    ids.truncate(4);
    assert_eq!(&[log_id(2, 2), log_id(3, 3)], ids.key_log_ids());

    let mut ids = make();
    ids.truncate(5);
    assert_eq!(&[log_id(2, 2), log_id(3, 3), log_id(3, 4)], ids.key_log_ids());

    let mut ids = make();
    ids.truncate(7);
    assert_eq!(&[log_id(2, 2), log_id(3, 3), log_id(6, 6)], ids.key_log_ids());

    let mut ids = make();
    ids.truncate(11);
    assert_eq!(
        &[log_id(2, 2), log_id(3, 3), log_id(6, 6), log_id(9, 9), log_id(9, 10)],
        ids.key_log_ids()
    );

    // beyond the last log id: nothing changes
    let mut ids = make();
    ids.truncate(12);
    assert_eq!(make().key_log_ids(), ids.key_log_ids());
}

#[test]
fn test_log_id_list_extend() {
    let mut ids = LogIdList::new(vec![]);
    ids.extend(&vec![log_id(1, 2)]);
    assert_eq!(&[log_id(1, 2)], ids.key_log_ids());

    ids.extend(&vec![log_id(1, 3), log_id(3, 4)]);
    assert_eq!(&[log_id(1, 2), log_id(3, 4)], ids.key_log_ids());

    ids.extend(&vec![log_id(3, 5), log_id(3, 6), log_id(5, 7), log_id(5, 8)]);
    assert_eq!(&[log_id(1, 2), log_id(3, 4), log_id(5, 7), log_id(5, 8)], ids.key_log_ids());
    assert_eq!(Some(log_id(3, 6)), ids.get(6));
}

#[test]
fn test_log_id_list_is_valid() {
    assert!(list().is_valid());
    assert!(LogIdList::new(vec![]).is_valid());
    // indices must increase
    assert!(!LogIdList::new(vec![log_id(1, 3), log_id(2, 3)]).is_valid());
    // leaders must not decrease
    assert!(!LogIdList::new(vec![log_id(2, 3), log_id(1, 4)]).is_valid());
}

#[test]
fn test_log_id_order() {
    let a: LogId = log_id(1, 5);
    let b: LogId = log_id(2, 3);
    assert!(a.is_lt(&b));
    assert!(!b.is_lt(&a));
    assert!(a.is_le(&a));
    assert!(a < b);
    assert!(openraft::log_id::opt_is_lt(&None, &Some(a)));
    assert!(openraft::log_id::opt_is_le(&None, &None));
    assert!(!openraft::log_id::opt_is_lt(&Some(b), &Some(a)));
    assert_eq!(0, openraft::log_id::next_index(&None));
    assert_eq!(6, openraft::log_id::next_index(&Some(a)));
    assert_eq!(Some(5), openraft::log_id::index(&Some(a)));
}
