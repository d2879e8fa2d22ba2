//! Operator control of a channel's stream: play from a position, stop,
//! seek, skip to the next or previous track, play a track by index. A
//! playing stream is anchored by the instant it started and the playlist
//! position it started from; the store keeps that state.
use vstd::prelude::*;

verus! {

#[derive(Debug, Clone, Copy, PartialEq, Eq, Structural)]
pub enum StreamStatus {
    Playing,
    Stopped,
}

/// A stream's stored state. Instants and positions in milliseconds.
#[derive(Debug, Clone, Copy, PartialEq, Eq, Structural)]
pub struct StreamState {
    pub status: StreamStatus,
    /// Instant at which the stream started playing.
    pub started_at: Option<i64>,
    /// Playlist position it started playing from.
    pub started_from: Option<i64>,
}

#[derive(Debug, Clone, Copy, PartialEq, Eq, Structural)]
pub enum StreamServiceError {
    /// The stream does not play.
    NotFound,
    TrackIndexOutOfBounds,
    /// The change would leave times outside the stored range.
    OutOfRange,
}

/// Position in the playlist cycle at instant `now`, for a playlist of
/// `duration`: None unless the stream plays.
pub open spec fn position_at(state: StreamState, now: i64, duration: i64) -> Option<int> {
    match (state.status, state.started_at, state.started_from) {
        (StreamStatus::Playing, Some(at), Some(from)) => if duration > 0 {
            Some((now - at + from) % (duration as int))
        } else {
            None
        },
        _ => None,
    }
}

/// Controls one stream.
pub struct StreamService {
    pub stream_id: u64,
}

impl StreamService {
    pub fn create(stream_id: u64) -> (r: StreamService)
        ensures
            r.stream_id == stream_id,
    {
        StreamService { stream_id }
    }

    /// Plays from playlist position `position`, starting at `now`.
    pub fn play_from(&self, position: i64, now: i64) -> (r: StreamState)
        ensures
            r == (StreamState {
                status: StreamStatus::Playing,
                started_at: Some(now),
                started_from: Some(position),
            }),
    {
        StreamState { status: StreamStatus::Playing, started_at: Some(now), started_from: Some(position) }
    }

    /// Plays from the start of the playlist.
    pub fn play(&self, now: i64) -> (r: StreamState)
        ensures
            r == (StreamState { status: StreamStatus::Playing, started_at: Some(now), started_from: Some(0) }),
    {
        self.play_from(0, now)
    }

    pub fn stop(&self) -> (r: StreamState)
        ensures
            r == (StreamState { status: StreamStatus::Stopped, started_at: None, started_from: None }),
    {
        StreamState { status: StreamStatus::Stopped, started_at: None, started_from: None }
    }

    /// Moves a playing stream `delta` milliseconds ahead (back, if negative).
    pub fn seek(&self, state: StreamState, delta: i64) -> (r: Result<StreamState, StreamServiceError>)
        ensures
            match (state.status, state.started_from) {
                (StreamStatus::Playing, Some(from)) => if i64::MIN <= from + delta <= i64::MAX {
                    r == Ok::<StreamState, StreamServiceError>(StreamState { started_from: Some((from + delta) as i64), ..state })
                } else {
                    r == Err::<StreamState, StreamServiceError>(StreamServiceError::OutOfRange)
                },
                _ => r == Err::<StreamState, StreamServiceError>(StreamServiceError::NotFound),
            },
    {
        match (state.status, state.started_from) {
            (StreamStatus::Playing, Some(from)) => match from.checked_add(delta) {
                Some(f) => Ok(StreamState { started_from: Some(f), ..state }),
                None => Err(StreamServiceError::OutOfRange),
            },
            _ => Err(StreamServiceError::NotFound),
        }
    }

    /// Position in the playlist cycle at `now`, for a playlist of `duration`.
    pub fn now_playing_position(&self, state: StreamState, now: i64, duration: i64) -> (r: Option<i64>)
        ensures
            match position_at(state, now, duration) {
                Some(p) => r == Some(p as i64),
                None => r is None,
            },
    {
        match (state.status, state.started_at, state.started_from) {
            (StreamStatus::Playing, Some(at), Some(from)) => {
                if duration <= 0 {
                    return None;
                }
                let d = duration as i128;
                let x = (now as i128) - (at as i128) + (from as i128);
                let p: i128 = if x >= 0 {
                    x % d
                } else {
                    let back = (-x) % d;
                    if back == 0 {
                        0
                    } else {
                        d - back
                    }
                };
                proof {
                    let xi = x as int;
                    let di = d as int;
                    if x < 0 {
                        let e = -xi;
                        vstd::arithmetic::div_mod::lemma_fundamental_div_mod(e, di);
                        let q = e / di;
                        let rem = e % di;
                        if rem == 0 {
                            assert(xi == (-q) * di) by (nonlinear_arith)
                                requires e == di * q + rem, rem == 0, e == -xi;
                            vstd::arithmetic::div_mod::lemma_mod_multiples_basic(-q, di);
                        } else {
                            assert(xi == di * (-q - 1) + (di - rem)) by (nonlinear_arith)
                                requires e == di * q + rem, e == -xi;
                            vstd::arithmetic::div_mod::lemma_mod_multiples_vanish(-q - 1, di - rem, di);
                            vstd::arithmetic::div_mod::lemma_small_mod((di - rem) as nat, di as nat);
                        }
                    }
                    assert(p as int == xi % di);
                }
                Some(p as i64)
            },
            _ => None,
        }
    }

    /// Seek that skips the rest of the current track of `track_duration`,
    /// being at `position` in it.
    pub fn play_next_seek(&self, track_duration: i64, position: i64) -> (r: Option<i64>)
        ensures
            i64::MIN <= track_duration - position <= i64::MAX ==> r == Some((track_duration - position) as i64),
            !(i64::MIN <= track_duration - position <= i64::MAX) ==> r is None,
    {
        track_duration.checked_sub(position)
    }

    /// Seek back to the start of the current track, being at `position` in it.
    pub fn play_prev_seek(&self, position: i64) -> (r: Option<i64>)
        ensures
            position > i64::MIN ==> r == Some((-position) as i64),
            position == i64::MIN ==> r is None,
    {
        if position == i64::MIN {
            None
        } else {
            Some(-position)
        }
    }

    /// Plays the track at `index`, given the start offsets of the playlist's tracks.
    pub fn play_by_index(&self, offsets: &Vec<i64>, index: u64, now: i64) -> (r: Result<StreamState, StreamServiceError>)
        ensures
            index < offsets@.len() ==> r == Ok::<StreamState, StreamServiceError>(StreamState {
                status: StreamStatus::Playing,
                started_at: Some(now),
                started_from: Some(offsets@[index as int]),
            }),
            index >= offsets@.len() ==> r == Err::<StreamState, StreamServiceError>(StreamServiceError::TrackIndexOutOfBounds),
    {
        if index < offsets.len() as u64 {
            Ok(self.play_from(offsets[index as usize], now))
        } else {
            Err(StreamServiceError::TrackIndexOutOfBounds)
        }
    }
}

} // verus!
