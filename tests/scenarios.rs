use reft_light::{blocking_reader, new, CounterAddOp, Epochs, WriteHandle};

fn counter(init: i32) -> WriteHandle<CounterAddOp, i32, ()> {
    new::<CounterAddOp, i32, ()>(init, ())
}

#[test]
fn publish_makes_appends_visible() {
    let mut w = counter(0);
    w.append(CounterAddOp(1));
    w.publish();
    assert_eq!(*w.read(), 1);
    w.append(CounterAddOp(2));
    assert_eq!(*w.read(), 1);
    w.publish();
    assert_eq!(*w.read(), 3);
}

#[test]
fn take_applies_pending_operations() {
    let mut w = counter(2);
    w.append(CounterAddOp(1));
    w.publish();
    w.append(CounterAddOp(1));
    w.publish();
    w.append(CounterAddOp(2));
    assert_eq!(*w.take(), 6);
}

#[test]
fn empty_publish_then_publish() {
    let mut w = counter(0);
    w.publish();
    assert!(!w.has_pending_operations());
    assert_eq!(*w.read(), 0);
    w.append(CounterAddOp(42));
    w.publish();
    assert_eq!(*w.read(), 42);
    assert_eq!(w.refreshes(), 2);
}

#[test]
fn repeated_operation_reaches_both_copies() {
    let mut w = counter(0);
    w.append(CounterAddOp(5));
    w.publish();
    w.append(CounterAddOp(5));
    w.publish();
    assert_eq!(*w.read(), 10);
    // one more swap brings the other copy forward: it must hold the same value
    w.publish();
    assert_eq!(*w.read(), 10);
    w.publish();
    assert_eq!(*w.read(), 10);
    assert_eq!(*w.take(), 10);
}

#[test]
fn publish_without_pending_keeps_value() {
    let mut w = counter(7);
    w.append(CounterAddOp(3));
    w.publish();
    assert_eq!(*w.read(), 10);
    assert_eq!(w.oplog_len(), 1);
    w.publish();
    assert_eq!(*w.read(), 10);
    assert!(!w.has_pending_operations());
    assert_eq!(w.oplog_len(), 0);
    w.publish();
    assert_eq!(w.oplog_len(), 0);
    assert_eq!(*w.read(), 10);
}

#[test]
fn flush_only_publishes_pending() {
    let mut w = counter(0);
    w.flush();
    assert_eq!(w.refreshes(), 0);
    w.append(CounterAddOp(4));
    w.flush();
    assert_eq!(w.refreshes(), 1);
    assert_eq!(*w.read(), 4);
    w.flush();
    assert_eq!(w.refreshes(), 1);
}

#[test]
fn take_on_fresh_handle_gives_initial() {
    let w = counter(17);
    assert_eq!(*w.take(), 17);
}

#[test]
fn extend_appends_in_order() {
    let mut w = counter(1);
    w.extend(vec![CounterAddOp(2), CounterAddOp(3), CounterAddOp(4)]);
    assert_eq!(w.oplog_len(), 3);
    assert_eq!(*w.read(), 1);
    w.publish();
    assert_eq!(*w.read(), 10);
}

#[test]
fn counter_add_wraps() {
    let mut w = counter(i32::MAX);
    w.append(CounterAddOp(1));
    assert_eq!(*w.take(), i32::MIN);
}

#[test]
fn auxiliary_access() {
    let mut w = new::<CounterAddOp, i32, ()>(0, ());
    assert_eq!(*w.auxiliary(), ());
    *w.auxiliary_mut() = ();
    assert_eq!(*w.auxiliary(), ());
}

#[test]
fn reader_inside_a_read_blocks_the_next_publish() {
    let mut w = counter(0);
    let r = w.register_reader();
    w.publish();
    // entered after the swap: it reads the new copy and does not hold up this publish
    w.enter(r);
    w.append(CounterAddOp(1));
    assert_eq!(w.try_publish(), None);
    assert_eq!(*w.read(), 1);
    // still inside the read the snapshot saw: the next publish must wait
    w.append(CounterAddOp(1));
    assert_eq!(w.try_publish(), Some(r));
    assert_eq!(*w.read(), 1);
    assert!(w.has_pending_operations());
    w.exit(r);
    assert_eq!(w.try_publish(), None);
    assert_eq!(*w.read(), 2);
}

#[test]
fn readers_get_their_own_slots() {
    let mut w = counter(0);
    let a = w.register_reader();
    let b = w.register_reader();
    assert_ne!(a, b);
    assert_eq!(w.reader_epoch(a), Some(0));
    w.enter(a);
    assert_eq!(w.reader_epoch(a), Some(1));
    assert_eq!(w.reader_epoch(b), Some(0));
    w.exit(a);
    assert_eq!(w.reader_epoch(a), Some(2));
    w.deregister_reader(a);
    assert_eq!(w.reader_epoch(a), None);
    assert_eq!(w.reader_epoch(b), Some(0));
}

#[test]
fn epoch_registry() {
    let mut e = Epochs::new();
    let a = e.register();
    let b = e.register();
    let c = e.register();
    assert_eq!(e.epoch(b), Some(0));
    e.advance(b);
    e.advance(b);
    e.advance(c);
    assert_eq!(e.epoch(b), Some(2));
    assert_eq!(e.readers(), vec![(a, 0), (b, 2), (c, 1)]);
    assert!(e.slot_bound() > c);
    e.deregister(b);
    assert_eq!(e.epoch(b), None);
    assert_eq!(e.readers(), vec![(a, 0), (c, 1)]);
    e.deregister(b);
    assert_eq!(e.readers(), vec![(a, 0), (c, 1)]);
    let d = e.register();
    assert_eq!(d, b);
}

#[test]
fn epoch_wraps_with_parity() {
    // an odd epoch at the top of usize that wraps to zero has moved on, and zero is outside a read
    let last = vec![usize::MAX];
    assert_eq!(blocking_reader(&last, &vec![(0, usize::MAX)], 0), Some(0));
    assert_eq!(blocking_reader(&last, &vec![(0, 0)], 0), None);
    assert_eq!(usize::MAX.wrapping_add(1) % 2, 0);
}

#[test]
fn blocking_reader_starts_at_position() {
    let last = vec![1, 3, 5];
    let readers = vec![(0, 1), (1, 4), (2, 5)];
    assert_eq!(blocking_reader(&last, &readers, 0), Some(0));
    assert_eq!(blocking_reader(&last, &readers, 1), Some(2));
    assert_eq!(blocking_reader(&last, &readers, 3), None);
    // a slot past the snapshot belongs to a reader that came after it
    assert_eq!(blocking_reader(&last, &vec![(7, 1)], 0), None);
}

#[test]
fn two_readers_see_values_that_never_go_back() {
    let mut w = counter(0);
    let a = w.register_reader();
    let b = w.register_reader();
    let mut seen_a = vec![];
    let mut seen_b = vec![];
    let observe = |w: &mut WriteHandle<CounterAddOp, i32, ()>, seen_a: &mut Vec<i32>, seen_b: &mut Vec<i32>| {
        w.enter(a);
        seen_a.push(*w.read());
        w.exit(a);
        w.enter(b);
        seen_b.push(*w.read());
        w.exit(b);
    };
    observe(&mut w, &mut seen_a, &mut seen_b);
    w.append(CounterAddOp(1));
    observe(&mut w, &mut seen_a, &mut seen_b);
    w.publish();
    observe(&mut w, &mut seen_a, &mut seen_b);
    w.append(CounterAddOp(1));
    w.publish();
    observe(&mut w, &mut seen_a, &mut seen_b);
    for seen in [&seen_a, &seen_b] {
        assert_eq!(seen, &vec![0, 0, 1, 2]);
        assert!(seen.windows(2).all(|p| p[0] <= p[1]));
    }
}
