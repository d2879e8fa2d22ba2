use radio_streamer::registry::{StreamsRegistry, IDLE_GRACE};

#[test]
fn concurrent_requests_create_one_stream() {
    let mut r = StreamsRegistry::new();
    let created: Vec<bool> = (0..5).map(|_| r.get_or_create(7)).collect();
    assert_eq!(created.iter().filter(|c| **c).count(), 1);
    assert!(created[0]);
    assert_eq!(r.entries.len(), 1);
    assert_eq!(r.entries[0].listeners, 5);
}

#[test]
fn active_channels_lists_each_channel_once() {
    let mut r = StreamsRegistry::new();
    r.get_or_create(1);
    r.get_or_create(2);
    r.get_or_create(1);
    let mut ids = r.active_channels();
    ids.sort();
    assert_eq!(ids, vec![1, 2]);
}

#[test]
fn restart_is_idempotent_and_a_no_op_without_stream() {
    let mut r = StreamsRegistry::new();
    assert!(!r.restart(3));
    assert!(r.entries.is_empty());
    r.get_or_create(3);
    assert!(r.restart(3));
    assert!(r.restart(3));
    assert!(r.take_restart(3));
    assert!(!r.take_restart(3));
}

#[test]
fn idle_streams_are_removed_after_grace() {
    let mut r = StreamsRegistry::new();
    r.get_or_create(1);
    r.get_or_create(2);
    r.release(1, 1_000);
    assert_eq!(r.entries[0].idle_since, Some(1_000));
    assert!(r.collect_idle(1_000 + IDLE_GRACE - 1, IDLE_GRACE).is_empty());
    assert_eq!(r.collect_idle(1_000 + IDLE_GRACE, IDLE_GRACE), vec![1]);
    assert_eq!(r.active_channels(), vec![2]);
    // a new request re-creates the stream
    assert!(r.get_or_create(1));
}

#[test]
fn a_returning_listener_cancels_idleness() {
    let mut r = StreamsRegistry::new();
    r.get_or_create(4);
    r.release(4, 10);
    assert!(!r.get_or_create(4));
    assert_eq!(r.entries[0].idle_since, None);
    assert!(r.collect_idle(10 + 2 * IDLE_GRACE, IDLE_GRACE).is_empty());
}
