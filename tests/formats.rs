use radio_streamer::formats::{GetChannelAudioStreamQueryParams, OutputFormat, DEFAULT_FORMAT};
use radio_streamer::listen::{icy_requested, range_acceptable, restart_status, stream_error_status};
use radio_streamer::media::{Frame, Timestamp, INTERNAL_TIME_BASE};
use radio_streamer::resolver::ResolveError;

#[test]
fn formats_are_found_by_name() {
    assert_eq!(OutputFormat::from_name(&"mp3_256".to_string()), Some(OutputFormat::Mp3k256));
    assert_eq!(OutputFormat::from_name(&"aac_128".to_string()), Some(OutputFormat::Aack128));
    assert_eq!(OutputFormat::from_name(&"flac".to_string()), None);
    assert_eq!(OutputFormat::Aack128.content_type(), "audio/aac");
    assert_eq!(OutputFormat::Mp3k192.content_type(), "audio/mpeg");
    assert_eq!(OutputFormat::Mp3k192.bitrate(), 192);
}

#[test]
fn unknown_or_missing_format_falls_back_to_default() {
    let q = GetChannelAudioStreamQueryParams { format: Some("wav".to_string()) };
    assert_eq!(q.output_format(), DEFAULT_FORMAT);
    let q = GetChannelAudioStreamQueryParams { format: None };
    assert_eq!(q.output_format(), DEFAULT_FORMAT);
    let q = GetChannelAudioStreamQueryParams { format: Some("aac_64".to_string()) };
    assert_eq!(q.output_format(), OutputFormat::Aack64);
}

#[test]
fn listen_request_decisions() {
    assert!(range_acceptable(None));
    assert!(range_acceptable(Some("bytes=0-")));
    assert!(!range_acceptable(Some("bytes=100-")));
    assert!(icy_requested(Some("1")));
    assert!(!icy_requested(Some("0")));
    assert!(!icy_requested(None));
    assert_eq!(stream_error_status(ResolveError::ChannelNotFound), 404);
    assert_eq!(stream_error_status(ResolveError::Transient), 503);
    assert_eq!(restart_status(Some("k"), "k"), 200);
    assert_eq!(restart_status(Some("x"), "k"), 401);
    assert_eq!(restart_status(None, "k"), 401);
}

#[test]
fn timestamps_convert_to_milliseconds() {
    let t = Timestamp::new(288_639, (1, 48_000));
    assert_eq!(t.value(), 288_639);
    assert_eq!(t.time_base(), (1, 48_000));
    assert_eq!(t.as_millis(), Some(6_013));
    assert_eq!(Timestamp::new(-5, (1, 1000)).as_millis(), None);
    assert_eq!(Timestamp::new(5, (1, 0)).as_millis(), None);
    assert_eq!(Timestamp::from_millis(1_500).time_base(), INTERNAL_TIME_BASE);
    assert_eq!(Timestamp::zero().value(), 0);
}

#[test]
fn frames_carry_data_and_times() {
    let mut f = Frame::new(Timestamp::new(48_000, (1, 48_000)), Timestamp::new(1024, (1, 48_000)), vec![1, 2]);
    assert_eq!(f.pts_as_duration(), Some(1_000));
    assert_eq!(f.data().as_slice(), &[1, 2]);
    assert_eq!(f.duration().value(), 1024);
    assert!(!f.is_empty());
    f.set_pts(Timestamp::from_millis(20));
    assert_eq!(f.pts().value(), 20);
    assert!(Frame::new(Timestamp::zero(), Timestamp::zero(), Vec::new()).is_empty());
}
