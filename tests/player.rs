use radio_streamer::player::{
    backoff, is_long_gap, silence_frame, DecoderStart, PlayerLoop, ResolveDecision, START_BUFFER,
    SILENCE_POLL_INTERVAL,
};
use radio_streamer::resolver::{now_playing, ResolveError, Track};

fn track(name: &str, secs: u64) -> Track {
    Track::new(format!("http://tracks/{}.mp3", name), name.to_string(), secs * 1000)
}

fn playlist() -> Vec<Track> {
    vec![track("A", 10), track("B", 20), track("C", 30)]
}

#[test]
fn new_loop_starts_a_start_buffer_behind() {
    let p = PlayerLoop::new(100_000);
    assert_eq!(p.initial_time, 100_000 - START_BUFFER);
    assert_eq!(p.running_time, 0);
    assert_eq!(p.resolve_instant(), 97_500);
    assert_eq!(PlayerLoop::new(1_000).initial_time, 0);
}

#[test]
fn first_track_spawns_decoder_and_announces_title() {
    let mut p = PlayerLoop::new(2_500);
    let np = now_playing(&playlist(), 0, 5_000).unwrap();
    let plan = p.begin_track(&np);
    match plan.decoder {
        DecoderStart::Spawn { url, offset } => {
            assert_eq!(url, "http://tracks/A.mp3");
            assert_eq!(offset, 5_000);
        }
        DecoderStart::Prespawned => panic!("no decoder was started ahead"),
    }
    assert_eq!(plan.prespawn_url, "http://tracks/B.mp3");
    let t = plan.announce.unwrap();
    assert_eq!((t.title.as_str(), t.pts), ("A", 0));
}

#[test]
fn prespawned_decoder_is_used_at_track_boundary() {
    let mut p = PlayerLoop::new(2_500);
    let np = now_playing(&playlist(), 0, 0).unwrap();
    p.begin_track(&np);
    p.on_track_end();
    let np = now_playing(&playlist(), 0, p.resolve_instant()).unwrap();
    assert_eq!(np.current.title, "B");
    let plan = p.begin_track(&np);
    assert!(matches!(plan.decoder, DecoderStart::Prespawned));
}

#[test]
fn same_title_is_not_announced_twice() {
    let mut p = PlayerLoop::new(2_500);
    let np = now_playing(&playlist(), 0, 0).unwrap();
    assert!(p.begin_track(&np).announce.is_some());
    p.on_track_end();
    p.restart(2_500);
    assert!(p.begin_track(&np).announce.is_none());
}

#[test]
fn buffers_are_rewritten_onto_the_channel_timeline() {
    let mut p = PlayerLoop::new(2_500);
    let np = now_playing(&playlist(), 0, 0).unwrap();
    p.begin_track(&np);
    p.on_track_end();
    let np = now_playing(&playlist(), 0, p.resolve_instant()).unwrap();
    p.begin_track(&np);
    assert_eq!(p.on_buffer(40), Some(10_000));
    assert_eq!(p.on_buffer(60), Some(10_020));
    // a timestamp going back does not make the pts go back
    assert_eq!(p.on_buffer(50), Some(10_020));
    // past the planned duration of B (20 s) the buffer is dropped
    assert_eq!(p.on_buffer(20_040), None);
    assert_eq!(p.last_pts, 10_020);
}

#[test]
fn pts_is_monotone_and_advances_by_planned_duration() {
    let mut p = PlayerLoop::new(2_500);
    let mut last = 0;
    for _cycle in 0..2 {
        for _track in 0..3 {
            let before = p.running_time;
            let np = now_playing(&playlist(), 0, p.resolve_instant()).unwrap();
            let planned = np.current.duration - np.position;
            p.begin_track(&np);
            for k in 0..50u64 {
                if let Some(pts) = p.on_buffer(k * 100) {
                    assert!(pts >= last);
                    last = pts;
                }
            }
            p.on_track_end();
            assert_eq!(p.running_time, before + planned);
        }
    }
    assert_eq!(p.running_time, 120_000);
}

#[test]
fn pacing_waits_until_the_deadline() {
    let p = PlayerLoop::new(10_000);
    assert_eq!(p.deadline(3_000), 10_500);
    assert_eq!(p.pacing_delay(3_000, 10_000), 500);
    assert_eq!(p.pacing_delay(3_000, 10_500), 0);
    assert_eq!(p.pacing_delay(3_000, 12_000), 0);
    assert!(!is_long_gap(1_000));
    assert!(is_long_gap(1_001));
}

#[test]
fn restart_resumes_within_two_start_buffers() {
    let t0 = 1_000_000;
    let mut p = PlayerLoop::new(t0);
    let np = now_playing(&playlist(), 0, p.resolve_instant()).unwrap();
    p.begin_track(&np);
    p.on_buffer(0);
    let restart_at = t0 + 15_000;
    p.restart(restart_at);
    assert_eq!(p.running_time, 0);
    assert!(p.current.is_none() && p.prespawned.is_none());
    assert_eq!(p.resolve_instant(), restart_at - START_BUFFER);
    let np = now_playing(&playlist(), 0, p.resolve_instant()).unwrap();
    p.begin_track(&np);
    let pts = p.on_buffer(0).unwrap();
    assert_eq!(pts, 0);
    let resume = restart_at + p.pacing_delay(pts, restart_at);
    assert!(resume - restart_at <= 2 * START_BUFFER);
}

#[test]
fn failed_decoder_skips_to_next_track_at_planned_pts() {
    let mut p = PlayerLoop::new(2_500);
    let epoch = p.initial_time;
    // A plays out
    let np = now_playing(&playlist(), epoch, p.resolve_instant()).unwrap();
    assert_eq!(np.current.title, "A");
    p.begin_track(&np);
    p.on_track_end();
    // B's decoder exits with code 1 before producing anything
    let np = now_playing(&playlist(), epoch, p.resolve_instant()).unwrap();
    assert_eq!(np.current.title, "B");
    p.begin_track(&np);
    p.on_track_end();
    assert_eq!(p.running_time, 30_000);
    let np = now_playing(&playlist(), epoch, p.resolve_instant()).unwrap();
    assert_eq!((np.current.title.as_str(), np.position), ("C", 0));
    p.begin_track(&np);
    assert_eq!(p.on_buffer(0), Some(30_000));
}

#[test]
fn resolver_failures_decide_exit_retry_or_silence() {
    let mut p = PlayerLoop::new(0);
    assert_eq!(p.on_resolve_error(ResolveError::ChannelNotFound), ResolveDecision::Exit);
    assert_eq!(p.on_resolve_error(ResolveError::Transient), ResolveDecision::Retry { delay: 200 });
    assert_eq!(p.on_resolve_error(ResolveError::Transient), ResolveDecision::Retry { delay: 400 });
    assert_eq!(
        p.on_resolve_error(ResolveError::Transient),
        ResolveDecision::Silence { poll: SILENCE_POLL_INTERVAL }
    );
    assert_eq!(p.failures, 0);
    assert_eq!(backoff(1), 200);
    assert_eq!(backoff(4), 1_600);
    assert_eq!(backoff(5), 2_000);
    assert_eq!(backoff(9), 2_000);
}

#[test]
fn empty_playlist_plays_silence_until_tracks_arrive() {
    let mut p = PlayerLoop::new(2_500);
    let err = now_playing(&Vec::new(), 0, p.resolve_instant()).err().unwrap();
    assert_eq!(
        p.on_resolve_error(err),
        ResolveDecision::Silence { poll: SILENCE_POLL_INTERVAL }
    );
    let frame = silence_frame();
    assert_eq!(frame.len(), 3_840);
    assert!(frame.iter().all(|b| *b == 0));
    let mut pts = Vec::new();
    for _ in 0..250 {
        pts.push(p.on_silence_frame());
    }
    assert_eq!(pts[0], 0);
    assert_eq!(pts[249], 4_980);
    assert_eq!(p.running_time, 5_000);
    // tracks were added: the next poll resolves real audio
    let np = now_playing(&playlist(), 0, p.resolve_instant()).unwrap();
    let plan = p.begin_track(&np);
    assert!(matches!(plan.decoder, DecoderStart::Spawn { .. }));
    assert_eq!(p.on_buffer(0), Some(5_000));
}
