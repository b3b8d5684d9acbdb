use reft_light::{blocking_reader, new, CounterAddOp, WriteHandle};

fn counter(init: i32) -> WriteHandle<CounterAddOp, i32, ()> {
    new::<CounterAddOp, i32, ()>(init, ())
}

#[test]
fn append_test() {
    let mut w = counter(0);
    w.append(CounterAddOp(1));
    assert_eq!(w.oplog_len(), 1);
    w.publish();
    w.append(CounterAddOp(2));
    w.append(CounterAddOp(3));
    assert_eq!(w.oplog_len(), 3);
}

#[test]
fn take_test() {
    // publish twice then take with no pending operations
    let mut w = counter(2);
    w.append(CounterAddOp(1));
    w.publish();
    w.append(CounterAddOp(1));
    w.publish();
    assert_eq!(*w.take(), 4);

    // publish twice then pending operation published by take
    let mut w = counter(2);
    w.append(CounterAddOp(1));
    w.publish();
    w.append(CounterAddOp(1));
    w.publish();
    w.append(CounterAddOp(2));
    assert_eq!(*w.take(), 6);

    // normal publish then pending operations published by take
    let mut w = counter(2);
    w.append(CounterAddOp(1));
    w.publish();
    w.append(CounterAddOp(1));
    assert_eq!(*w.take(), 4);

    // pending operations published by take
    let mut w = counter(2);
    w.append(CounterAddOp(1));
    assert_eq!(*w.take(), 3);

    // empty op queue
    let mut w = counter(2);
    w.append(CounterAddOp(1));
    w.publish();
    assert_eq!(*w.take(), 3);

    // no operations
    let w = counter(2);
    assert_eq!(*w.take(), 2);
}

#[test]
fn wait_test() {
    // no reader to wait for
    assert_eq!(blocking_reader(&vec![], &vec![], 0), None);

    // the third reader is still inside the read it was in at the snapshot
    let last = vec![2, 2, 1];
    let mut readers = vec![(0, 2), (1, 2), (2, 1)];
    assert_eq!(blocking_reader(&last, &readers, 0), Some(2));

    // once it has moved on, nobody holds the old copy
    readers[2].1 += 1;
    assert_eq!(blocking_reader(&last, &readers, 0), None);
}

#[test]
fn flush_noblock() {
    let mut w = counter(0);
    let r = w.register_reader();
    w.append(CounterAddOp(42));
    w.publish();
    w.enter(r);
    assert_eq!(*w.read(), 42);
    w.exit(r);

    // pin the epoch
    w.enter(r);
    // refresh would hang here
    assert_eq!(w.oplog_len() - w.swap_index(), 0);
    assert!(!w.has_pending_operations());
}

#[test]
fn flush_no_refresh() {
    let mut w = counter(0);

    assert!(!w.has_pending_operations());
    w.publish();
    assert!(!w.has_pending_operations());
    assert_eq!(w.refreshes(), 1);

    w.append(CounterAddOp(42));
    assert!(w.has_pending_operations());
    w.publish();
    assert!(!w.has_pending_operations());
    assert_eq!(w.refreshes(), 2);

    w.append(CounterAddOp(42));
    assert!(w.has_pending_operations());
    w.publish();
    assert!(!w.has_pending_operations());
    assert_eq!(w.refreshes(), 3);

    // Sanity check that a refresh would have been visible
    assert!(!w.has_pending_operations());
    w.publish();
    assert_eq!(w.refreshes(), 4);
}
