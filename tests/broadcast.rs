use radio_streamer::broadcast::{StreamMessage, TimedBroadcast, REPLAY_WINDOW, SUBSCRIBER_CAPACITY};

fn buffer(k: u64) -> StreamMessage {
    StreamMessage::Buffer { bytes: vec![(k % 251) as u8, (k / 251) as u8, 7], pts: k * 100 }
}

fn bytes_of(m: &StreamMessage) -> Vec<u8> {
    match m {
        StreamMessage::Buffer { bytes, .. } => bytes.clone(),
        StreamMessage::TrackTitle { title, .. } => title.as_bytes().to_vec(),
    }
}

fn drain(b: &mut TimedBroadcast, id: u64, into: &mut Vec<Vec<u8>>) {
    while let Some(m) = b.receive(id) {
        into.push(bytes_of(&m));
    }
}

#[test]
fn two_listeners_share_the_live_suffix() {
    // items every 100 ms; L1 joins at t0, L2 at t0 + 4 s
    let mut b = TimedBroadcast::new(REPLAY_WINDOW, SUBSCRIBER_CAPACITY);
    let t0 = 1_000_000;
    let l1 = b.subscribe(t0);
    let (mut got1, mut got2) = (Vec::new(), Vec::new());
    let mut l2 = None;
    for k in 0..140u64 {
        let now = t0 + k * 100;
        if k == 40 {
            l2 = Some(b.subscribe(now));
        }
        assert!(b.send(buffer(k), now));
        drain(&mut b, l1, &mut got1);
        if let Some(id) = l2 {
            drain(&mut b, id, &mut got2);
        }
    }
    // the last 6 s are byte-equal
    let n = 60;
    assert_eq!(got1[got1.len() - n..], got2[got2.len() - n..]);
    // L2 got the replay window first, then everything live
    assert_eq!(got2.len(), 140);
    assert_eq!(got1.len(), 140);
}

#[test]
fn replay_window_bounds_what_a_new_subscriber_gets() {
    let mut b = TimedBroadcast::new(1_000, 4);
    for k in 0..10u64 {
        b.send(buffer(k), k * 500);
    }
    // at 4500 the messages stamped 3500, 4000 and 4500 are within 1 s
    let id = b.subscribe(4_500);
    let mut got = Vec::new();
    drain(&mut b, id, &mut got);
    assert_eq!(got, vec![bytes_of(&buffer(7)), bytes_of(&buffer(8)), bytes_of(&buffer(9))]);
}

#[test]
fn slow_subscriber_is_shed_without_stalling_others() {
    let mut b = TimedBroadcast::new(REPLAY_WINDOW, SUBSCRIBER_CAPACITY);
    let slow = b.subscribe(0);
    let fast = b.subscribe(0);
    let mut got = Vec::new();
    // 10 s of audio at 10 items per second; `slow` never reads
    for k in 0..100u64 {
        assert!(b.send(buffer(k), k * 100));
        drain(&mut b, fast, &mut got);
    }
    assert_eq!(got.len(), 100);
    let s = b.subscribers.iter().find(|s| s.id == slow).unwrap();
    assert!(s.closed);
    assert!(b.receive(slow).is_none());
}

#[test]
fn overflow_drops_oldest_then_closes_on_third() {
    let mut b = TimedBroadcast::new(REPLAY_WINDOW, 2);
    let id = b.subscribe(0);
    for k in 0..3u64 {
        b.send(buffer(k), 0);
    }
    let s = &b.subscribers[0];
    assert!(!s.closed);
    assert_eq!(s.overflows, 1);
    let mut got = Vec::new();
    drain(&mut b, id, &mut got);
    assert_eq!(got, vec![bytes_of(&buffer(1)), bytes_of(&buffer(2))]);
    for k in 3..8u64 {
        b.send(buffer(k), 0);
    }
    assert!(b.subscribers[0].closed);
}

#[test]
fn close_and_unsubscribe() {
    let mut b = TimedBroadcast::new(REPLAY_WINDOW, SUBSCRIBER_CAPACITY);
    let a = b.subscribe(0);
    let c = b.subscribe(0);
    b.unsubscribe(a);
    assert_eq!(b.subscriber_count(), 1);
    assert_eq!(b.subscribers[0].id, c);
    b.close();
    assert!(b.subscribers[0].closed);
    assert!(!b.send(buffer(1), 0));
}

#[test]
fn titles_travel_in_band() {
    let mut b = TimedBroadcast::new(REPLAY_WINDOW, SUBSCRIBER_CAPACITY);
    let id = b.subscribe(0);
    b.send(StreamMessage::TrackTitle { title: "A".to_string(), pts: 0 }, 0);
    b.send(buffer(0), 0);
    let first = b.receive(id).unwrap();
    assert!(matches!(first, StreamMessage::TrackTitle { .. }));
    assert_eq!(first.pts(), 0);
    let copy = first.duplicate();
    assert_eq!(bytes_of(&copy), b"A".to_vec());
}
