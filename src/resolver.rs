//! Wall-clock instant to (track, position, next track) against a looped playlist.
use vstd::prelude::*;

verus! {

/// One entry of a playlist snapshot. Durations are in milliseconds.
pub struct Track {
    pub url: String,
    pub title: String,
    pub duration: u64,
}

impl Track {
    pub fn new(url: String, title: String, duration: u64) -> (r: Track)
        ensures
            r.url == url,
            r.title == title,
            r.duration == duration,
    {
        Track { url, title, duration }
    }

    /// A copy equal to `self` field by field.
    pub fn duplicate(&self) -> (r: Track)
        ensures
            r == *self,
    {
        Track { url: self.url.clone(), title: self.title.clone(), duration: self.duration }
    }
}

/// What plays at an instant: the current track, the offset into it and the
/// track that follows it in the loop.
pub struct NowPlaying {
    pub current: Track,
    pub position: u64,
    pub next: Track,
    /// Index of `current` in the playlist.
    pub index: usize,
}

#[derive(Debug, Clone, Copy, PartialEq, Eq, Structural)]
pub enum ResolveError {
    /// The store knows no such channel.
    ChannelNotFound,
    /// The playlist is empty or its total duration is zero.
    ChannelEmpty,
    /// The store failed in a way that may pass on retry.
    Transient,
}

/// Total duration of a sequence of tracks.
pub open spec fn span(tracks: Seq<Track>) -> nat
    decreases tracks.len(),
{
    if tracks.len() == 0 {
        0
    } else {
        span(tracks.drop_last()) + tracks.last().duration as nat
    }
}

/// Offset at which track `i` starts in the concatenated playlist.
pub open spec fn start_of(tracks: Seq<Track>, i: int) -> nat {
    span(tracks.take(i))
}

/// Index of the last track that starts at or before `offset`.
pub open spec fn index_at(tracks: Seq<Track>, offset: int) -> int
    decreases tracks.len(),
{
    if tracks.len() <= 1 {
        0
    } else if offset >= span(tracks.drop_last()) {
        tracks.len() - 1
    } else {
        index_at(tracks.drop_last(), offset)
    }
}

/// Offset into one cycle of the playlist at instant `at` for a channel whose
/// loop started at `epoch`.
pub open spec fn cycle_offset(epoch: int, at: int, total: int) -> int {
    (at - epoch) % total
}

/// The index of the current track and the position in it at instant `at`.
pub open spec fn resolve(tracks: Seq<Track>, epoch: int, at: int) -> (int, int) {
    let offset = cycle_offset(epoch, at, span(tracks) as int);
    let i = index_at(tracks, offset);
    (i, offset - start_of(tracks, i))
}

/// The index of the track that follows track `i` in the loop.
pub open spec fn next_index(len: int, i: int) -> int {
    (i + 1) % len
}

proof fn lemma_take_drop_last(tracks: Seq<Track>, k: int)
    requires
        0 < k <= tracks.len(),
    ensures
        tracks.take(k).drop_last() == tracks.take(k - 1),
        tracks.take(k).last() == tracks[k - 1],
        span(tracks.take(k)) == span(tracks.take(k - 1)) + tracks[k - 1].duration,
{
    assert(tracks.take(k).drop_last() =~= tracks.take(k - 1));
}

proof fn lemma_span_monotone(tracks: Seq<Track>, j: int, k: int)
    requires
        0 <= j <= k <= tracks.len(),
    ensures
        span(tracks.take(j)) <= span(tracks.take(k)),
    decreases k - j,
{
    if j < k {
        lemma_take_drop_last(tracks, k);
        lemma_span_monotone(tracks, j, k - 1);
    }
}

/// The track found by `index_at` contains the offset.
proof fn lemma_index_at_bounds(tracks: Seq<Track>, offset: int)
    requires
        tracks.len() > 0,
        0 <= offset < span(tracks),
    ensures
        0 <= index_at(tracks, offset) < tracks.len(),
        start_of(tracks, index_at(tracks, offset)) <= offset,
        offset < start_of(tracks, index_at(tracks, offset)) + tracks[index_at(tracks, offset)].duration,
    decreases tracks.len(),
{
    let i = index_at(tracks, offset);
    assert(tracks.take(tracks.len() as int) =~= tracks);
    if tracks.len() == 1 {
        assert(tracks.take(0) =~= Seq::<Track>::empty());
        assert(tracks.drop_last() =~= Seq::<Track>::empty());
    } else if offset >= span(tracks.drop_last()) {
        assert(tracks.take(tracks.len() - 1) =~= tracks.drop_last());
    } else {
        let d = tracks.drop_last();
        lemma_index_at_bounds(d, offset);
        assert(d.take(i) =~= tracks.take(i));
    }
}

/// Total duration of a playlist, in milliseconds.
pub fn playlist_duration(tracks: &Vec<Track>) -> (d: u64)
    requires
        span(tracks@) <= u64::MAX,
    ensures
        d == span(tracks@),
{
    proof {
        assert(tracks@.take(tracks.len() as int) =~= tracks@);
    }
    start_offset(tracks, tracks.len())
}

/// Offset at which track `i` starts in the concatenated playlist.
pub fn start_offset(tracks: &Vec<Track>, i: usize) -> (d: u64)
    requires
        i <= tracks.len(),
        span(tracks@) <= u64::MAX,
    ensures
        d == start_of(tracks@, i as int),
{
    let mut total: u64 = 0;
    let mut k: usize = 0;
    while k < i
        invariant
            k <= i <= tracks.len(),
            total == span(tracks@.take(k as int)),
            span(tracks@) <= u64::MAX,
        decreases i - k,
    {
        proof {
            lemma_take_drop_last(tracks@, k as int + 1);
            lemma_span_monotone(tracks@, k as int + 1, tracks.len() as int);
            assert(tracks@.take(tracks.len() as int) =~= tracks@);
        }
        total = total + tracks[k].duration;
        k = k + 1;
    }
    total
}

/// Finds what plays at instant `at` (milliseconds) on a channel whose loop
/// started at `channel_epoch`, given the channel's playlist snapshot.
/// The position is `(at - channel_epoch) mod D`, D being the total duration,
/// taken into the concatenated playlist.
pub fn now_playing(tracks: &Vec<Track>, channel_epoch: u64, at: u64) -> (r: Result<NowPlaying, ResolveError>)
    requires
        span(tracks@) <= u64::MAX,
    ensures
        r is Err <==> span(tracks@) == 0,
        r is Err ==> r == Err::<NowPlaying, ResolveError>(ResolveError::ChannelEmpty),
        r matches Ok(np) ==> {
            let (i, pos) = resolve(tracks@, channel_epoch as int, at as int);
            &&& np.index == i
            &&& np.current == tracks@[i]
            &&& np.position == pos
            &&& np.next == tracks@[next_index(tracks@.len() as int, i)]
        },
{
    let total = playlist_duration(tracks);
    assert(tracks@.take(tracks.len() as int) =~= tracks@);
    if total == 0 {
        return Err(ResolveError::ChannelEmpty);
    }
    let offset: u64 = if at >= channel_epoch {
        (at - channel_epoch) % total
    } else {
        let back = (channel_epoch - at) % total;
        if back == 0 {
            0
        } else {
            total - back
        }
    };
    proof {
        let t = total as int;
        let e = (channel_epoch - at) as int;
        if at < channel_epoch {
            vstd::arithmetic::div_mod::lemma_fundamental_div_mod(e, t);
            let q = e / t;
            let rem = e % t;
            // at - epoch == -(q * t + rem) == (-q - 1) * t + (t - rem)
            if rem == 0 {
                assert((at - channel_epoch) as int == (-q) * t + 0) by (nonlinear_arith)
                    requires e == t * q + rem, rem == 0, e == channel_epoch - at;
                vstd::arithmetic::div_mod::lemma_mod_multiples_basic(-q, t);
            } else {
                assert((at - channel_epoch) as int == (-q - 1) * t + (t - rem)) by (nonlinear_arith)
                    requires e == t * q + rem, e == channel_epoch - at;
                vstd::arithmetic::div_mod::lemma_mod_multiples_vanish(-q - 1, t - rem, t);
                vstd::arithmetic::div_mod::lemma_small_mod((t - rem) as nat, t as nat);
            }
        }
        assert(offset as int == cycle_offset(channel_epoch as int, at as int, t));
    }
    // Walk back from the end to the last track that starts at or before `offset`.
    let mut end: u64 = total;
    let mut n: usize = tracks.len();
    proof {
        assert(tracks@.take(n as int) =~= tracks@);
    }
    loop
        invariant
            0 < n <= tracks.len(),
            end == span(tracks@.take(n as int)),
            offset < end,
            total == span(tracks@),
            offset as int == cycle_offset(channel_epoch as int, at as int, total as int),
            index_at(tracks@.take(n as int), offset as int) == index_at(tracks@, offset as int),
        decreases n,
    {
        proof {
            lemma_take_drop_last(tracks@, n as int);
        }
        let start = end - tracks[n - 1].duration;
        if offset >= start || n == 1 {
            proof {
                if n == 1 {
                    assert(tracks@.take(0) =~= Seq::<Track>::empty());
                }
                assert(index_at(tracks@.take(n as int), offset as int) == n - 1);
                assert(start as int == start_of(tracks@, n - 1));
                assert(resolve(tracks@, channel_epoch as int, at as int) == (
                    (n - 1) as int,
                    offset - start,
                ));
            }
            let i = n - 1;
            let next = if i + 1 == tracks.len() {
                0
            } else {
                i + 1
            };
            proof {
                if i + 1 < tracks.len() {
                    vstd::arithmetic::div_mod::lemma_small_mod((i + 1) as nat, tracks.len() as nat);
                } else {
                    vstd::arithmetic::div_mod::lemma_mod_self_0(tracks.len() as int);
                }
            }
            return Ok(
                NowPlaying {
                    current: tracks[i].duplicate(),
                    position: offset - start,
                    next: tracks[next].duplicate(),
                    index: i,
                },
            );
        }
        end = start;
        n = n - 1;
    }
}

/// Index of the first track whose url is `url`, or -1 where there is none.
pub open spec fn find_url(tracks: Seq<Track>, url: Seq<char>) -> int
    decreases tracks.len(),
{
    if tracks.len() == 0 {
        -1
    } else if find_url(tracks.drop_last(), url) >= 0 {
        find_url(tracks.drop_last(), url)
    } else if tracks.last().url@ == url {
        tracks.len() - 1
    } else {
        -1
    }
}

/// Where play continues in a changed playlist: the track that was playing, at
/// the same position, if its url is still there; else the track that now
/// stands at its index (the first track if the playlist got shorter), from
/// its start.
pub open spec fn continuation_offset(new: Seq<Track>, url: Seq<char>, index: int, position: int) -> int {
    let j = find_url(new, url);
    if j >= 0 {
        (start_of(new, j) + position) % (span(new) as int)
    } else if index < new.len() {
        (start_of(new, index) as int) % (span(new) as int)
    } else {
        0
    }
}

proof fn lemma_find_url(tracks: Seq<Track>, url: Seq<char>, k: int)
    requires
        0 <= k <= tracks.len(),
    ensures
        find_url(tracks.take(k), url) == -1 || (0 <= find_url(tracks.take(k), url) < k
            && tracks[find_url(tracks.take(k), url)].url@ == url),
        find_url(tracks.take(k), url) == -1 ==> forall|m: int| 0 <= m < k ==> tracks[m].url@ != url,
    decreases k,
{
    if k > 0 {
        lemma_take_drop_last(tracks, k);
        lemma_find_url(tracks, url, k - 1);
    }
}

/// Position of the first track whose url is `url`.
fn position_of_url(tracks: &Vec<Track>, url: &String) -> (r: Option<usize>)
    ensures
        r matches Some(j) ==> j < tracks.len() && j == find_url(tracks@, url@),
        r is None ==> find_url(tracks@, url@) == -1,
{
    let mut k: usize = 0;
    while k < tracks.len()
        invariant
            k <= tracks.len(),
            find_url(tracks@.take(k as int), url@) == -1,
        decreases tracks.len() - k,
    {
        proof {
            lemma_take_drop_last(tracks@, k as int + 1);
        }
        if tracks[k].url == *url {
            proof {
                assert(tracks@.take(k as int + 1).last() == tracks@[k as int]);
                let j = k as int;
                let m = tracks.len() as int;
                assert(find_url(tracks@.take(k as int + 1), url@) == j);
                lemma_find_url_extends(tracks@, url@, j + 1, m);
                assert(tracks@.take(m) =~= tracks@);
            }
            return Some(k);
        }
        k = k + 1;
    }
    assert(tracks@.take(tracks.len() as int) =~= tracks@);
    None
}

/// Once a prefix holds the url, longer prefixes find the same index.
proof fn lemma_find_url_extends(tracks: Seq<Track>, url: Seq<char>, j: int, k: int)
    requires
        0 <= j <= k <= tracks.len(),
        find_url(tracks.take(j), url) >= 0,
    ensures
        find_url(tracks.take(k), url) == find_url(tracks.take(j), url),
    decreases k - j,
{
    if j < k {
        lemma_find_url_extends(tracks, url, j, k - 1);
        lemma_take_drop_last(tracks, k);
    }
}

/// New loop start for a channel whose playlist changed at instant `now`, so
/// that play continues as `continuation_offset` says: `current_url` is the url
/// of the track that was playing, `index` its index and `position` the offset
/// into it. None where the new playlist is empty (the channel then stops).
pub fn epoch_after_change(
    new: &Vec<Track>,
    current_url: &String,
    index: usize,
    position: u64,
    now: u64,
) -> (r: Option<u64>)
    requires
        span(new@) <= u64::MAX,
    ensures
        r is None <==> span(new@) == 0,
        r matches Some(e) ==> cycle_offset(e as int, now as int, span(new@) as int)
            == continuation_offset(new@, current_url@, index as int, position as int),
{
    let total = playlist_duration(new);
    if total == 0 {
        return None;
    }
    let offset: u64 = match position_of_url(new, current_url) {
        Some(j) => {
            let s = start_offset(new, j) % total;
            let p = position % total;
            proof {
                vstd::arithmetic::div_mod::lemma_add_mod_noop(
                    start_of(new@, j as int) as int,
                    position as int,
                    total as int,
                );
                if s < total - p {
                    vstd::arithmetic::div_mod::lemma_small_mod((s + p) as nat, total as nat);
                } else {
                    vstd::arithmetic::div_mod::lemma_mod_multiples_vanish(1, (s + p - total) as int, total as int);
                    vstd::arithmetic::div_mod::lemma_small_mod((s + p - total) as nat, total as nat);
                }
            }
            if s < total - p {
                s + p
            } else {
                s - (total - p)
            }
        },
        None => {
            if index < new.len() {
                start_offset(new, index) % total
            } else {
                0
            }
        },
    };
    proof {
        vstd::arithmetic::div_mod::lemma_small_mod(offset as nat, total as nat);
    }
    if now >= offset {
        proof {
            assert((now - (now - offset)) as int == offset as int);
        }
        Some(now - offset)
    } else {
        proof {
            let t = total as int;
            assert(now as int - (now + t - offset) == t * (-1) + offset as int);
            vstd::arithmetic::div_mod::lemma_mod_multiples_vanish(-1, offset as int, t);
        }
        Some(now + (total - offset))
    }
}

/// The loop cycle: instants one total duration apart resolve to the same
/// track at the same position.
pub proof fn lemma_loop_cycle(tracks: Seq<Track>, epoch: int, t: int)
    requires
        span(tracks) > 0,
    ensures
        resolve(tracks, epoch, t + span(tracks)) == resolve(tracks, epoch, t),
{
    let d = span(tracks) as int;
    assert(t + d - epoch == d * 1 + (t - epoch));
    vstd::arithmetic::div_mod::lemma_mod_multiples_vanish(1, t - epoch, d);
}

} // verus!
