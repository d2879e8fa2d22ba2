use radio_streamer::control::{StreamService, StreamServiceError, StreamState, StreamStatus};

#[test]
fn play_and_stop() {
    let s = StreamService::create(9);
    assert_eq!(s.stream_id, 9);
    let st = s.play(1_000);
    assert_eq!(st, StreamState { status: StreamStatus::Playing, started_at: Some(1_000), started_from: Some(0) });
    assert_eq!(s.stop(), StreamState { status: StreamStatus::Stopped, started_at: None, started_from: None });
}

#[test]
fn position_loops_over_the_playlist() {
    let s = StreamService::create(1);
    let st = s.play_from(5_000, 100_000);
    assert_eq!(s.now_playing_position(st, 100_000, 60_000), Some(5_000));
    assert_eq!(s.now_playing_position(st, 160_000, 60_000), Some(5_000));
    assert_eq!(s.now_playing_position(st, 96_000, 60_000), Some(1_000));
    assert_eq!(s.now_playing_position(st, 90_000, 60_000), Some(55_000));
    assert_eq!(s.now_playing_position(st, 90_000, 0), None);
    assert_eq!(s.now_playing_position(s.stop(), 90_000, 60_000), None);
}

#[test]
fn seeking_moves_the_start_position() {
    let s = StreamService::create(1);
    let st = s.play_from(5_000, 0);
    let next = s.play_next_seek(20_000, 5_000).unwrap();
    assert_eq!(next, 15_000);
    let st2 = s.seek(st, next).unwrap();
    assert_eq!(st2.started_from, Some(20_000));
    assert_eq!(s.play_prev_seek(5_000), Some(-5_000));
    assert_eq!(s.seek(s.stop(), 1), Err(StreamServiceError::NotFound));
    assert_eq!(s.seek(s.play_from(i64::MAX, 0), 1), Err(StreamServiceError::OutOfRange));
    assert_eq!(s.play_prev_seek(i64::MIN), None);
}

#[test]
fn play_by_index_uses_track_offsets() {
    let s = StreamService::create(1);
    let offsets = vec![0, 10_000, 30_000];
    assert_eq!(s.play_by_index(&offsets, 2, 7).unwrap().started_from, Some(30_000));
    assert_eq!(s.play_by_index(&offsets, 3, 7), Err(StreamServiceError::TrackIndexOutOfBounds));
}
