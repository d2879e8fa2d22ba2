use radio_streamer::broadcast::StreamMessage;
use radio_streamer::formats::OutputFormat;
use radio_streamer::stream::Stream;

#[test]
fn outputs_are_created_once_per_format() {
    let mut s = Stream::new(1);
    let (created, a) = s.subscribe(OutputFormat::Mp3k256, 0);
    assert!(created);
    let (created, b) = s.subscribe(OutputFormat::Mp3k256, 0);
    assert!(!created);
    assert_ne!(a, b);
    let (created, _) = s.subscribe(OutputFormat::Aack128, 0);
    assert!(created);
    assert_eq!(s.outputs.len(), 2);
}

#[test]
fn publishing_reaches_only_that_format() {
    let mut s = Stream::new(1);
    let (_, mp3) = s.subscribe(OutputFormat::Mp3k256, 0);
    let (_, aac) = s.subscribe(OutputFormat::Aack128, 0);
    assert!(s.publish(OutputFormat::Mp3k256, StreamMessage::Buffer { bytes: vec![1], pts: 0 }, 0));
    assert!(!s.publish(OutputFormat::Mp3k128, StreamMessage::Buffer { bytes: vec![2], pts: 0 }, 0));
    assert!(s.outputs[0].broadcast.receive(mp3).is_some());
    assert!(s.outputs[1].broadcast.receive(aac).is_none());
}

#[test]
fn failed_encoder_closes_only_its_format() {
    let mut s = Stream::new(1);
    s.subscribe(OutputFormat::Mp3k256, 0);
    s.subscribe(OutputFormat::Aack128, 0);
    s.close_output(OutputFormat::Aack128);
    assert!(s.outputs[1].broadcast.closed);
    assert!(!s.outputs[0].broadcast.closed);
    assert!(!s.publish(OutputFormat::Aack128, StreamMessage::Buffer { bytes: vec![1], pts: 0 }, 0));
    assert!(s.publish(OutputFormat::Mp3k256, StreamMessage::Buffer { bytes: vec![1], pts: 0 }, 0));
}

#[test]
fn title_snapshot_for_new_listeners() {
    let mut s = Stream::new(5);
    assert_eq!(s.track_title(), "");
    s.announce_title("Artist - Song".to_string());
    assert_eq!(s.track_title(), "Artist - Song");
    assert_eq!(s.channel_id, 5);
}
