use mkit::db::{Bound, Cutoff, Delta, Entry, Value};

#[test]
fn test_entry_values() {
    let mut entry: Entry<u8, u64, u64> = Entry::new(10, 200, 1);
    entry.insert(300, 2);
    entry.insert(400, 3);
    entry.delete(4);
    entry.insert(500, 5);
    entry.delete(6);
    entry.delete(7);
    entry.insert(600, 8);

    let values = entry.to_values();
    let mut refvs = vec![
        Value::U {
            value: 200,
            seqno: 1,
        },
        Value::U {
            value: 300,
            seqno: 2,
        },
        Value::U {
            value: 400,
            seqno: 3,
        },
        Value::D { seqno: 4 },
        Value::U {
            value: 500,
            seqno: 5,
        },
        Value::D { seqno: 6 },
        Value::D { seqno: 7 },
        Value::U {
            value: 600,
            seqno: 8,
        },
    ];
    assert_eq!(values, refvs);

    entry.delete(9);
    let values = entry.to_values();
    refvs.push(Value::D { seqno: 9 });
    assert_eq!(values, refvs);
}

#[test]
fn test_entry_contains() {
    let mut one: Entry<u8, u64, u64> = Entry::new(10, 200, 1);
    one.insert(300, 3);
    one.insert(400, 5);
    one.delete(7);
    one.insert(500, 9);
    one.delete(11);
    one.delete(13);
    one.insert(600, 15);

    assert!(one.contains(&Entry::new(10, 200, 1)), "{:?}", one);
    assert!(one.contains(&Entry::new_deleted(10, 7)), "{:?}", one);
    assert!(!one.contains(&Entry::new(10, 200, 2)), "{:?}", one);

    let mut two: Entry<u8, u64, u64> = Entry::new(10, 200, 1);
    two.insert(300, 3);
    two.insert(400, 5);
    two.delete(7);
    two.insert(500, 9);
    two.delete(11);
    two.delete(13);
    assert!(one.contains(&two), "{:?} {:?}", one, two);
    two.insert(600, 15);
    assert!(one.contains(&two), "{:?} {:?}", one, two);
    two.insert(600, 16);
    assert!(!one.contains(&two), "{:?} {:?}", one, two);
}

#[test]
fn test_entry_merge() {
    let mut one: Entry<u8, u64, u64> = Entry::new(10, 200, 1);
    one.insert(300, 3);
    one.insert(400, 5);
    one.delete(7);
    one.insert(500, 9);
    one.delete(11);
    one.delete(13);
    one.insert(600, 15);

    let mut two: Entry<u8, u64, u64> = Entry::new(10, 1000, 2);
    two.insert(2000, 4);
    two.delete(6);
    two.insert(3000, 8);
    two.delete(10);
    two.insert(4000, 12);
    two.insert(5000, 14);
    two.delete(16);

    let mut entry: Entry<u8, u64, u64> = Entry::new(10, 200, 1);
    entry.insert(1000, 2);
    entry.insert(300, 3);
    entry.insert(2000, 4);
    entry.insert(400, 5);
    entry.delete(6);
    entry.delete(7);
    entry.insert(3000, 8);
    entry.insert(500, 9);
    entry.delete(10);
    entry.delete(11);
    entry.insert(4000, 12);
    entry.delete(13);
    entry.insert(5000, 14);
    entry.insert(600, 15);
    entry.delete(16);

    assert_eq!(one.merge(&two), entry);
}

#[test]
fn test_entry_purge() {
    let mut entry: Entry<u8, u64, u64> = Entry::new(10, 200, 1);
    entry.insert(300, 4);
    entry.insert(400, 8);

    let kept = entry.clone().purge(Cutoff::Mono).unwrap();
    assert_eq!(kept.to_seqno(), 8);
    assert_eq!(kept.to_values().len(), 1);

    assert!(entry.clone().purge(Cutoff::Lsm(Bound::Unbounded)).is_none());
    assert!(entry.clone().purge(Cutoff::Lsm(Bound::Included(8))).is_none());
    let kept = entry.clone().purge(Cutoff::Lsm(Bound::Included(4))).unwrap();
    assert_eq!(kept.to_values().len(), 1);
    let kept = entry.clone().purge(Cutoff::Lsm(Bound::Excluded(4))).unwrap();
    assert_eq!(kept.to_values().len(), 2);

    let kept = entry.clone().purge(Cutoff::Tombstone(Bound::Unbounded)).unwrap();
    assert_eq!(kept.to_values().len(), 3);
    let mut dead: Entry<u8, u64, u64> = Entry::new_deleted(10, 5);
    assert!(dead.clone().purge(Cutoff::Tombstone(Bound::Included(5))).is_none());
    dead.insert(700, 9);
    assert!(dead.clone().purge(Cutoff::Mono).is_some());
}

#[test]
fn test_value_delta_accessors() {
    let mut v: Value<u64> = Value::U {
        value: 42,
        seqno: 3,
    };
    assert_eq!(v.to_seqno(), 3);
    assert!(!v.is_deleted());
    v.delete(4);
    assert_eq!(v.to_seqno(), 4);
    assert!(v.is_deleted());
    v.set(43, 5);
    assert_eq!(v.to_seqno(), 5);

    let d: Delta<u64> = Delta::U {
        delta: 42,
        seqno: 7,
    };
    assert_eq!(d.to_seqno(), 7);

    let e: Entry<u8, u64, u64> = Entry::new(1, 2, 3);
    assert_eq!(*e.as_key(), 1);
    assert_eq!(*e.borrow_key(), 1);
    assert_eq!(e.to_key(), 1);
    assert_eq!(e.to_value(), Some(2));
    assert_eq!(e.to_seqno(), 3);
    assert!(!e.is_deleted());

    let mut e2 = e.clone();
    e2.insert(9, 4);
    e2.drain_deltas();
    assert_eq!(e2.to_values().len(), 1);

    let rebuilt: Entry<u8, u64, u64> = Entry::from_values(
        10,
        vec![
            Value::U {
                value: 200,
                seqno: 1,
            },
            Value::D { seqno: 2 },
        ],
    );
    assert_eq!(
        rebuilt.to_values(),
        vec![
            Value::U {
                value: 200,
                seqno: 1,
            },
            Value::D { seqno: 2 },
        ]
    );
}
