//! Decisions of the player loop: which decoder to use for a track, how decoder
//! timestamps map onto the channel timeline, pacing against the wall clock,
//! track ends, restarts, resolver failures and the silence fallback.
//! The loop that performs the actions (spawning decoders, sleeping, sending)
//! runs outside and hands each event to these methods.
use vstd::prelude::*;
use crate::resolver::{NowPlaying, ResolveError};

verus! {

/// How far production starts behind the wall clock, in milliseconds.
pub const START_BUFFER: u64 = 2500;

/// Pacing sleeps longer than this, in milliseconds, are worth a warning.
pub const MAX_GAP: u64 = 1000;

/// A decoder started ahead for the next track is used only if the resolved
/// position is below this many milliseconds.
pub const ALLOWED_PRESPAWN_DRIFT: u64 = 250;

/// Consecutive transient resolver failures after which the loop falls back to silence.
pub const MAX_RESOLVE_TRIES: u32 = 3;

/// First retry delay after a transient resolver failure, in milliseconds.
pub const BACKOFF_BASE: u64 = 200;

/// Largest retry delay, in milliseconds.
pub const BACKOFF_CAP: u64 = 2000;

/// How often the silence fallback polls the resolver, in milliseconds.
pub const SILENCE_POLL_INTERVAL: u64 = 5000;

/// Duration of one synthetic silence frame, in milliseconds.
pub const SILENCE_FRAME_MS: u64 = 20;

/// Bytes of internal PCM per millisecond: 48000 Hz, two channels, 16 bits.
pub const PCM_BYTES_PER_MS: u64 = 192;

/// The track being produced and where production stands in it.
pub struct Playing {
    pub url: String,
    pub title: String,
    pub duration: u64,
    /// Offset into the track at which its decoder was started.
    pub position: u64,
    /// Decoder timestamp of the first buffer received, once one arrived.
    pub first_pts: Option<u64>,
}

/// Time of the track that remains to be produced from `position` on.
pub open spec fn planned(duration: u64, position: u64) -> int {
    if position <= duration {
        duration - position
    } else {
        0
    }
}

/// State of one channel's player loop. Times are in milliseconds; instants
/// are wall-clock milliseconds.
pub struct PlayerLoop {
    /// Wall-clock anchor of the channel timeline.
    pub initial_time: u64,
    /// Channel-timeline time produced by tracks completed so far.
    pub running_time: u64,
    /// Title last announced.
    pub previous_title: Option<String>,
    pub current: Option<Playing>,
    /// Url of the decoder started ahead for the next track, at offset 0.
    pub prespawned: Option<String>,
    /// Consecutive transient resolver failures.
    pub failures: u32,
    /// Channel-timeline pts of the last buffer emitted.
    pub last_pts: u64,
}

/// Which decoder feeds the track that begins.
pub enum DecoderStart {
    /// The decoder started ahead for this track.
    Prespawned,
    /// A new decoder for `url`, seeking to `offset`.
    Spawn { url: String, offset: u64 },
}

/// A title announcement, carrying the channel-timeline pts it applies from.
pub struct TitleEvent {
    pub title: String,
    pub pts: u64,
}

/// What the loop does to begin a track.
pub struct TrackPlan {
    pub decoder: DecoderStart,
    /// Url of the following track, for which a decoder is started ahead at offset 0.
    pub prespawn_url: String,
    pub announce: Option<TitleEvent>,
}

/// What the loop does after the resolver failed.
#[derive(Debug, Clone, Copy, PartialEq, Eq, Structural)]
pub enum ResolveDecision {
    /// The channel is gone: the loop ends.
    Exit,
    /// Ask the resolver again after this many milliseconds.
    Retry { delay: u64 },
    /// Produce silence and ask the resolver again after this many milliseconds.
    Silence { poll: u64 },
}

/// Retry delay after the `k`-th consecutive transient failure: doubling from
/// `BACKOFF_BASE`, at most `BACKOFF_CAP`.
pub open spec fn backoff_delay(k: nat) -> int
    decreases k,
{
    if k <= 1 {
        BACKOFF_BASE as int
    } else if 2 * backoff_delay((k - 1) as nat) >= BACKOFF_CAP {
        BACKOFF_CAP as int
    } else {
        2 * backoff_delay((k - 1) as nat)
    }
}

/// The wall-clock instant before which a buffer with channel pts `pts` is not sent.
pub open spec fn deadline(initial_time: int, pts: int) -> int {
    initial_time + pts
}

impl PlayerLoop {
    /// The loop's invariant: the timeline stays within `u64` and no emitted
    /// pts lies beyond the planned end of the current track.
    pub open spec fn wf(&self) -> bool {
        &&& match self.current {
            Some(p) => {
                &&& self.initial_time + self.running_time + planned(p.duration, p.position) <= u64::MAX
                &&& self.last_pts <= self.running_time + planned(p.duration, p.position)
            },
            None => {
                &&& self.initial_time + self.running_time <= u64::MAX
                &&& self.last_pts <= self.running_time
            },
        }
    }

    /// A loop anchored `START_BUFFER` behind `now` (at 0 where `now` is smaller),
    /// with nothing produced yet.
    pub fn new(now: u64) -> (r: PlayerLoop)
        ensures
            r.wf(),
            r.initial_time == if now >= START_BUFFER { now - START_BUFFER } else { 0 },
            r.running_time == 0,
            r.last_pts == 0,
            r.current is None,
            r.prespawned is None,
            r.previous_title is None,
            r.failures == 0,
    {
        PlayerLoop {
            initial_time: now.saturating_sub(START_BUFFER),
            running_time: 0,
            previous_title: None,
            current: None,
            prespawned: None,
            failures: 0,
            last_pts: 0,
        }
    }

    /// The instant at which the resolver is asked what plays next.
    pub fn resolve_instant(&self) -> (r: u64)
        requires
            self.wf(),
        ensures
            r == self.initial_time + self.running_time,
    {
        self.initial_time + self.running_time
    }

    /// Begins the track that the resolver returned: reuses the decoder started
    /// ahead when it was started for this track's url and the position is below
    /// `ALLOWED_PRESPAWN_DRIFT`, else spawns one at the position; starts a
    /// decoder ahead for the following track; announces the title, at the
    /// current running time, when it differs from the last one announced.
    pub fn begin_track(&mut self, np: &NowPlaying) -> (r: TrackPlan)
        requires
            old(self).wf(),
            old(self).current is None,
            old(self).initial_time + old(self).running_time
                + planned(np.current.duration, np.position) <= u64::MAX,
        ensures
            final(self).wf(),
            ({
                let reuse = (old(self).prespawned matches Some(u) && u@ == np.current.url@)
                    && np.position < ALLOWED_PRESPAWN_DRIFT;
                &&& reuse ==> r.decoder is Prespawned
                &&& !reuse ==> r.decoder == (DecoderStart::Spawn {
                    url: np.current.url,
                    offset: np.position,
                })
            }),
            r.prespawn_url == np.next.url,
            r.announce == (if old(self).previous_title matches Some(t) && t@ == np.current.title@ {
                None
            } else {
                Some(TitleEvent { title: np.current.title, pts: old(self).running_time })
            }),
            final(self).current == Some(Playing {
                url: np.current.url,
                title: np.current.title,
                duration: np.current.duration,
                position: np.position,
                first_pts: None,
            }),
            final(self).prespawned == Some(np.next.url),
            final(self).previous_title == Some(np.current.title),
            final(self).failures == 0,
            final(self).initial_time == old(self).initial_time,
            final(self).running_time == old(self).running_time,
            final(self).last_pts == old(self).last_pts,
    {
        let reuse = match &self.prespawned {
            Some(url) => *url == np.current.url && np.position < ALLOWED_PRESPAWN_DRIFT,
            None => false,
        };
        let decoder = if reuse {
            DecoderStart::Prespawned
        } else {
            DecoderStart::Spawn { url: np.current.url.clone(), offset: np.position }
        };
        let same_title = match &self.previous_title {
            Some(t) => *t == np.current.title,
            None => false,
        };
        let announce = if same_title {
            None
        } else {
            Some(TitleEvent { title: np.current.title.clone(), pts: self.running_time })
        };
        self.current = Some(
            Playing {
                url: np.current.url.clone(),
                title: np.current.title.clone(),
                duration: np.current.duration,
                position: np.position,
                first_pts: None,
            },
        );
        self.prespawned = Some(np.next.url.clone());
        self.previous_title = Some(np.current.title.clone());
        self.failures = 0;
        TrackPlan { decoder, prespawn_url: np.next.url.clone(), announce }
    }

    /// Maps a decoder buffer's timestamp onto the channel timeline: the running
    /// time plus the time since the track's first buffer, never below the last
    /// pts emitted. None for a buffer past the track's planned end, which is
    /// dropped so that the timeline does not drift.
    pub fn on_buffer(&mut self, decoder_pts: u64) -> (r: Option<u64>)
        requires
            old(self).wf(),
            old(self).current is Some,
        ensures
            final(self).wf(),
            ({
                let p = old(self).current.unwrap();
                let first = match p.first_pts {
                    Some(f) => f as int,
                    None => decoder_pts as int,
                };
                let elapsed = if decoder_pts >= first { decoder_pts - first } else { 0 };
                let pts = old(self).running_time + elapsed;
                &&& final(self).current == Some(Playing { first_pts: Some(first as u64), ..p })
                &&& elapsed >= planned(p.duration, p.position) ==> r is None
                    && final(self).last_pts == old(self).last_pts
                &&& elapsed < planned(p.duration, p.position) ==> r == Some(
                    if pts >= old(self).last_pts { pts as u64 } else { old(self).last_pts },
                ) && final(self).last_pts == r.unwrap()
            }),
            r matches Some(pts) ==> old(self).last_pts <= pts,
            final(self).last_pts >= old(self).last_pts,
            final(self).initial_time == old(self).initial_time,
            final(self).running_time == old(self).running_time,
            final(self).prespawned == old(self).prespawned,
            final(self).previous_title == old(self).previous_title,
            final(self).failures == old(self).failures,
    {
        let p = self.current.as_ref().unwrap();
        let first = match p.first_pts {
            Some(f) => f,
            None => decoder_pts,
        };
        let elapsed = if decoder_pts >= first {
            decoder_pts - first
        } else {
            0
        };
        let planned_time = if p.position <= p.duration {
            p.duration - p.position
        } else {
            0
        };
        let updated = Playing {
            url: p.url.clone(),
            title: p.title.clone(),
            duration: p.duration,
            position: p.position,
            first_pts: Some(first),
        };
        self.current = Some(updated);
        if elapsed >= planned_time {
            return None;
        }
        let pts = self.running_time + elapsed;
        let pts = if pts >= self.last_pts {
            pts
        } else {
            self.last_pts
        };
        self.last_pts = pts;
        Some(pts)
    }

    /// Ends the current track, after its decoder reached its end or failed:
    /// the running time advances by the track's planned time whatever the
    /// decoder produced.
    pub fn on_track_end(&mut self)
        requires
            old(self).wf(),
            old(self).current is Some,
        ensures
            final(self).wf(),
            ({
                let p = old(self).current.unwrap();
                final(self).running_time == old(self).running_time + planned(p.duration, p.position)
            }),
            final(self).current is None,
            final(self).last_pts == old(self).last_pts,
            final(self).initial_time == old(self).initial_time,
            final(self).prespawned == old(self).prespawned,
            final(self).previous_title == old(self).previous_title,
            final(self).failures == old(self).failures,
    {
        let p = self.current.take().unwrap();
        let planned_time = if p.position <= p.duration {
            p.duration - p.position
        } else {
            0
        };
        self.running_time = self.running_time + planned_time;
    }

    /// The wall-clock instant at which a buffer with channel pts `pts` may be sent.
    pub fn deadline(&self, pts: u64) -> (r: u64)
        requires
            self.initial_time + pts <= u64::MAX,
        ensures
            r == deadline(self.initial_time as int, pts as int),
    {
        self.initial_time + pts
    }

    /// How long to sleep at `now` before sending a buffer with channel pts
    /// `pts`: until its deadline, or not at all once the deadline has passed.
    pub fn pacing_delay(&self, pts: u64, now: u64) -> (r: u64)
        requires
            self.initial_time + pts <= u64::MAX,
        ensures
            now + r >= deadline(self.initial_time as int, pts as int),
            r == (if now >= deadline(self.initial_time as int, pts as int) {
                0
            } else {
                deadline(self.initial_time as int, pts as int) - now
            }),
    {
        let target = self.initial_time + pts;
        if now >= target {
            0
        } else {
            target - now
        }
    }

    /// Re-anchors the loop at `now`: the timeline starts again from zero,
    /// `START_BUFFER` behind the wall clock, and no decoder is kept.
    pub fn restart(&mut self, now: u64)
        ensures
            final(self).wf(),
            final(self).initial_time == if now >= START_BUFFER { now - START_BUFFER } else { 0 },
            final(self).running_time == 0,
            final(self).last_pts == 0,
            final(self).current is None,
            final(self).prespawned is None,
            final(self).failures == 0,
            final(self).previous_title == old(self).previous_title,
    {
        self.initial_time = now.saturating_sub(START_BUFFER);
        self.running_time = 0;
        self.last_pts = 0;
        self.current = None;
        self.prespawned = None;
        self.failures = 0;
    }

    /// Decides what follows a resolver failure: a vanished channel ends the
    /// loop; an empty playlist starts silence; a transient failure is retried
    /// with a growing delay until the `MAX_RESOLVE_TRIES`-th in a row, which
    /// starts silence.
    pub fn on_resolve_error(&mut self, error: ResolveError) -> (r: ResolveDecision)
        ensures
            error == ResolveError::ChannelNotFound ==> r == ResolveDecision::Exit
                && final(self).failures == old(self).failures,
            error == ResolveError::ChannelEmpty ==> r == (ResolveDecision::Silence {
                poll: SILENCE_POLL_INTERVAL,
            }) && final(self).failures == 0,
            error == ResolveError::Transient ==> {
                let k = if old(self).failures < MAX_RESOLVE_TRIES { old(self).failures + 1 } else { MAX_RESOLVE_TRIES as int };
                &&& k < MAX_RESOLVE_TRIES ==> r == (ResolveDecision::Retry {
                    delay: backoff_delay(k as nat) as u64,
                }) && final(self).failures == k
                &&& k >= MAX_RESOLVE_TRIES ==> r == (ResolveDecision::Silence {
                    poll: SILENCE_POLL_INTERVAL,
                }) && final(self).failures == 0
            },
            final(self).initial_time == old(self).initial_time,
            final(self).running_time == old(self).running_time,
            final(self).last_pts == old(self).last_pts,
            final(self).current == old(self).current,
            final(self).prespawned == old(self).prespawned,
            final(self).previous_title == old(self).previous_title,
    {
        match error {
            ResolveError::ChannelNotFound => ResolveDecision::Exit,
            ResolveError::ChannelEmpty => {
                self.failures = 0;
                ResolveDecision::Silence { poll: SILENCE_POLL_INTERVAL }
            },
            ResolveError::Transient => {
                let k = if self.failures < MAX_RESOLVE_TRIES {
                    self.failures + 1
                } else {
                    MAX_RESOLVE_TRIES
                };
                if k < MAX_RESOLVE_TRIES {
                    self.failures = k;
                    ResolveDecision::Retry { delay: backoff(k) }
                } else {
                    self.failures = 0;
                    ResolveDecision::Silence { poll: SILENCE_POLL_INTERVAL }
                }
            },
        }
    }

    /// Emits one silence frame while no track plays: its pts is the running
    /// time, which then advances by `SILENCE_FRAME_MS`.
    pub fn on_silence_frame(&mut self) -> (r: u64)
        requires
            old(self).wf(),
            old(self).current is None,
            old(self).initial_time + old(self).running_time + SILENCE_FRAME_MS <= u64::MAX,
        ensures
            final(self).wf(),
            r == old(self).running_time,
            r >= old(self).last_pts,
            final(self).last_pts == r,
            final(self).running_time == old(self).running_time + SILENCE_FRAME_MS,
            final(self).current is None,
            final(self).initial_time == old(self).initial_time,
            final(self).prespawned == old(self).prespawned,
            final(self).previous_title == old(self).previous_title,
            final(self).failures == old(self).failures,
    {
        let pts = self.running_time;
        self.last_pts = pts;
        self.running_time = self.running_time + SILENCE_FRAME_MS;
        pts
    }
}

/// Retry delay after the `k`-th consecutive transient failure.
pub fn backoff(k: u32) -> (r: u64)
    ensures
        r == backoff_delay(k as nat),
        r <= BACKOFF_CAP,
{
    let mut d: u64 = BACKOFF_BASE;
    let mut i: u32 = 1;
    while i < k
        invariant
            1 <= i,
            i <= k || i == 1,
            d == backoff_delay(i as nat),
            d <= BACKOFF_CAP,
        decreases k - i,
    {
        i = i + 1;
        d = if 2 * d >= BACKOFF_CAP {
            BACKOFF_CAP
        } else {
            2 * d
        };
    }
    proof {
        if k <= 1 {
            assert(backoff_delay(k as nat) == BACKOFF_BASE);
            assert(backoff_delay(1) == BACKOFF_BASE);
        } else {
            assert(i == k);
        }
    }
    d
}

/// Whether a pacing sleep of `delay` milliseconds is long enough to warn of.
pub fn is_long_gap(delay: u64) -> (r: bool)
    ensures
        r == (delay > MAX_GAP),
{
    delay > MAX_GAP
}

/// One frame of silence in the internal PCM format, `SILENCE_FRAME_MS` long.
pub fn silence_frame() -> (r: Vec<u8>)
    ensures
        r@.len() == SILENCE_FRAME_MS * PCM_BYTES_PER_MS,
        forall|i: int| 0 <= i < r@.len() ==> r@[i] == 0,
{
    let n: usize = (SILENCE_FRAME_MS * PCM_BYTES_PER_MS) as usize;
    let mut v: Vec<u8> = Vec::with_capacity(n);
    while v.len() < n
        invariant
            v@.len() <= n,
            forall|i: int| 0 <= i < v@.len() ==> v@[i] == 0,
        decreases n - v@.len(),
    {
        v.push(0);
    }
    v
}

} // verus!
