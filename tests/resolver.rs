use radio_streamer::resolver::{
    epoch_after_change, now_playing, playlist_duration, start_offset, ResolveError, Track,
};

fn track(name: &str, secs: u64) -> Track {
    Track::new(format!("http://tracks/{}.mp3", name), name.to_string(), secs * 1000)
}

fn playlist() -> Vec<Track> {
    vec![track("A", 10), track("B", 20), track("C", 30)]
}

#[test]
fn channel_42_at_65_seconds_plays_a_at_5_seconds() {
    let np = now_playing(&playlist(), 0, 65_000).unwrap();
    assert_eq!(np.current.title, "A");
    assert_eq!(np.position, 5_000);
    assert_eq!(np.next.title, "B");
    assert_eq!(np.index, 0);
}

#[test]
fn resolves_inside_middle_and_last_track() {
    let np = now_playing(&playlist(), 0, 25_000).unwrap();
    assert_eq!((np.current.title.as_str(), np.position, np.next.title.as_str()), ("B", 15_000, "C"));
    let np = now_playing(&playlist(), 0, 59_999).unwrap();
    assert_eq!((np.current.title.as_str(), np.position, np.next.title.as_str()), ("C", 29_999, "A"));
    let np = now_playing(&playlist(), 0, 30_000).unwrap();
    assert_eq!((np.current.title.as_str(), np.position), ("C", 0));
}

#[test]
fn loop_cycle_repeats_after_total_duration() {
    let d = playlist_duration(&playlist());
    assert_eq!(d, 60_000);
    for t in [0u64, 1, 9_999, 10_000, 33_333, 59_999] {
        let a = now_playing(&playlist(), 1_000, 1_000 + t).unwrap();
        let b = now_playing(&playlist(), 1_000, 1_000 + t + d).unwrap();
        assert_eq!(a.index, b.index);
        assert_eq!(a.position, b.position);
    }
}

#[test]
fn instants_before_the_epoch_wrap_around() {
    let np = now_playing(&playlist(), 100_000, 95_000).unwrap();
    assert_eq!((np.current.title.as_str(), np.position), ("C", 25_000));
}

#[test]
fn empty_playlist_is_channel_empty() {
    assert_eq!(now_playing(&Vec::new(), 0, 5).err(), Some(ResolveError::ChannelEmpty));
    let zero = vec![track("Z", 0)];
    assert_eq!(now_playing(&zero, 0, 5).err(), Some(ResolveError::ChannelEmpty));
}

#[test]
fn zero_length_tracks_are_never_current() {
    let list = vec![track("A", 10), track("Z", 0), track("C", 5)];
    let np = now_playing(&list, 0, 10_000).unwrap();
    assert_eq!((np.current.title.as_str(), np.position, np.next.title.as_str()), ("C", 0, "A"));
}

#[test]
fn start_offsets_accumulate() {
    assert_eq!(start_offset(&playlist(), 0), 0);
    assert_eq!(start_offset(&playlist(), 2), 30_000);
    assert_eq!(start_offset(&playlist(), 3), 60_000);
}

#[test]
fn playlist_change_keeps_current_track_position() {
    // B was playing at 7 s; A was removed, so B now starts the playlist.
    let new = vec![track("B", 20), track("C", 30)];
    let url = "http://tracks/B.mp3".to_string();
    let now = 1_000_000;
    let epoch = epoch_after_change(&new, &url, 1, 7_000, now).unwrap();
    let np = now_playing(&new, epoch, now).unwrap();
    assert_eq!((np.current.title.as_str(), np.position), ("B", 7_000));
}

#[test]
fn playlist_change_without_current_track_starts_next_at_zero() {
    // B (index 1) was removed: the track now at index 1 starts from 0.
    let new = vec![track("A", 10), track("C", 30)];
    let url = "http://tracks/B.mp3".to_string();
    let epoch = epoch_after_change(&new, &url, 1, 7_000, 5_000).unwrap();
    let np = now_playing(&new, epoch, 5_000).unwrap();
    assert_eq!((np.current.title.as_str(), np.position), ("C", 0));
    assert_eq!(epoch_after_change(&Vec::new(), &url, 1, 7_000, 5_000), None);
}
