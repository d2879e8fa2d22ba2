//! Which channels have a running stream, how many listeners each has, and
//! pending restart signals. At most one stream exists per channel: the first
//! request for a channel creates it, later ones join it.
use vstd::prelude::*;

verus! {

/// Grace interval, in milliseconds, for which a stream without listeners is
/// kept before it is removed.
pub const IDLE_GRACE: u64 = 60_000;

/// One channel's stream.
#[derive(Debug, Clone, Copy, PartialEq, Eq, Structural)]
pub struct ChannelEntry {
    pub channel_id: u64,
    pub listeners: u64,
    pub restart_pending: bool,
    /// Since when the stream has had no listener.
    pub idle_since: Option<u64>,
}

/// Index of the entry of `channel_id`, or -1.
pub open spec fn find(entries: Seq<ChannelEntry>, channel_id: u64) -> int
    decreases entries.len(),
{
    if entries.len() == 0 {
        -1
    } else if entries.last().channel_id == channel_id {
        entries.len() - 1
    } else {
        find(entries.drop_last(), channel_id)
    }
}

/// The channels with a stream.
pub open spec fn channel_ids(entries: Seq<ChannelEntry>) -> Set<u64> {
    Set::new(|c: u64| find(entries, c) >= 0)
}

/// Whether a request for `channel_id` creates a stream.
pub open spec fn creates(entries: Seq<ChannelEntry>, channel_id: u64) -> bool {
    find(entries, channel_id) < 0
}

/// The entries after a request for `channel_id`.
pub open spec fn after_request(entries: Seq<ChannelEntry>, channel_id: u64) -> Seq<ChannelEntry> {
    let i = find(entries, channel_id);
    if i < 0 {
        entries.push(ChannelEntry { channel_id, listeners: 1, restart_pending: false, idle_since: None })
    } else {
        entries.update(
            i,
            ChannelEntry { listeners: (entries[i].listeners + 1) as u64, idle_since: None, ..entries[i] },
        )
    }
}

proof fn lemma_find(entries: Seq<ChannelEntry>, channel_id: u64)
    ensures
        -1 <= find(entries, channel_id) < entries.len(),
        find(entries, channel_id) >= 0 ==> entries[find(entries, channel_id)].channel_id == channel_id,
        find(entries, channel_id) < 0 ==> forall|i: int| 0 <= i < entries.len() ==> entries[i].channel_id != channel_id,
    decreases entries.len(),
{
    if entries.len() > 0 {
        let d = entries.drop_last();
        lemma_find(d, channel_id);
        if find(entries, channel_id) < 0 {
            assert forall|i: int| 0 <= i < entries.len() implies entries[i].channel_id != channel_id by {
                if i < d.len() {
                    assert(entries[i] == d[i]);
                }
            }
        }
    }
}

proof fn lemma_find_unique(entries: Seq<ChannelEntry>, i: int)
    requires
        0 <= i < entries.len(),
        forall|a: int, b: int| 0 <= a < b < entries.len() ==> entries[a].channel_id != entries[b].channel_id,
    ensures
        find(entries, entries[i].channel_id) == i,
    decreases entries.len(),
{
    if i < entries.len() - 1 {
        lemma_find_unique(entries.drop_last(), i);
    }
}

/// Single flight: of two requests for the same channel in a row, at most the
/// first creates a stream; the second joins it.
pub proof fn lemma_single_flight(entries: Seq<ChannelEntry>, channel_id: u64)
    ensures
        !creates(after_request(entries, channel_id), channel_id),
{
    lemma_find(entries, channel_id);
    let after = after_request(entries, channel_id);
    if find(entries, channel_id) < 0 {
        assert(after.last().channel_id == channel_id);
    } else {
        assert(after[find(entries, channel_id)].channel_id == channel_id);
    }
    lemma_find(after, channel_id);
}

pub struct StreamsRegistry {
    pub entries: Vec<ChannelEntry>,
}

impl StreamsRegistry {
    pub open spec fn wf(&self) -> bool {
        forall|a: int, b: int|
            0 <= a < b < self.entries@.len() ==> self.entries@[a].channel_id != self.entries@[b].channel_id
    }

    pub fn new() -> (r: StreamsRegistry)
        ensures
            r.wf(),
            r.entries@.len() == 0,
    {
        StreamsRegistry { entries: Vec::new() }
    }

    fn index_of(&self, channel_id: u64) -> (r: Option<usize>)
        ensures
            r matches Some(i) ==> i == find(self.entries@, channel_id),
            r is None ==> find(self.entries@, channel_id) == -1,
    {
        proof {
            lemma_find(self.entries@, channel_id);
        }
        let mut i: usize = self.entries.len();
        while i > 0
            invariant
                i <= self.entries@.len(),
                find(self.entries@, channel_id) < i,
            decreases i,
        {
            if self.entries[i - 1].channel_id == channel_id {
                proof {
                    lemma_find_last_match(self.entries@, channel_id, i as int - 1);
                }
                return Some(i - 1);
            }
            proof {
                lemma_find_skip(self.entries@, channel_id, i as int - 1);
            }
            i = i - 1;
        }
        None
    }

    /// A request for a channel's stream: joins the stream if there is one,
    /// else creates it. Returns whether it was created, in which case the
    /// caller starts the channel's player loop.
    pub fn get_or_create(&mut self, channel_id: u64) -> (created: bool)
        requires
            old(self).wf(),
            find(old(self).entries@, channel_id) >= 0 ==> old(self).entries@[find(
                old(self).entries@,
                channel_id,
            )].listeners < u64::MAX,
        ensures
            final(self).wf(),
            created == creates(old(self).entries@, channel_id),
            final(self).entries@ == after_request(old(self).entries@, channel_id),
    {
        proof {
            lemma_find(self.entries@, channel_id);
        }
        match self.index_of(channel_id) {
            Some(i) => {
                let e = self.entries[i];
                self.entries.set(i, ChannelEntry { listeners: e.listeners + 1, idle_since: None, ..e });
                false
            },
            None => {
                self.entries.push(
                    ChannelEntry { channel_id, listeners: 1, restart_pending: false, idle_since: None },
                );
                true
            },
        }
    }

    /// A listener of `channel_id` left at instant `now`. When it was the last
    /// one, the stream is idle from `now` on.
    pub fn release(&mut self, channel_id: u64, now: u64)
        requires
            old(self).wf(),
        ensures
            final(self).wf(),
            ({
                let i = find(old(self).entries@, channel_id);
                &&& i < 0 ==> final(self).entries@ == old(self).entries@
                &&& i >= 0 ==> {
                    let e = old(self).entries@[i];
                    let n = if e.listeners > 0 { (e.listeners - 1) as u64 } else { 0 };
                    final(self).entries@ == old(self).entries@.update(
                        i,
                        ChannelEntry {
                            listeners: n,
                            idle_since: if n == 0 { Some(now) } else { None },
                            ..e
                        },
                    )
                }
            }),
    {
        proof {
            lemma_find(self.entries@, channel_id);
        }
        if let Some(i) = self.index_of(channel_id) {
            let e = self.entries[i];
            let n = if e.listeners > 0 {
                e.listeners - 1
            } else {
                0
            };
            let idle_since = if n == 0 {
                Some(now)
            } else {
                None
            };
            self.entries.set(i, ChannelEntry { listeners: n, idle_since, ..e });
        }
    }

    /// Signals a restart to the stream of `channel_id`. A no-op where there
    /// is none; signalling again before the loop took it changes nothing.
    /// Returns whether the stream exists.
    pub fn restart(&mut self, channel_id: u64) -> (r: bool)
        requires
            old(self).wf(),
        ensures
            final(self).wf(),
            r == (find(old(self).entries@, channel_id) >= 0),
            !r ==> final(self).entries@ == old(self).entries@,
            r ==> final(self).entries@ == old(self).entries@.update(
                find(old(self).entries@, channel_id),
                ChannelEntry {
                    restart_pending: true,
                    ..old(self).entries@[find(old(self).entries@, channel_id)]
                },
            ),
    {
        proof {
            lemma_find(self.entries@, channel_id);
        }
        match self.index_of(channel_id) {
            Some(i) => {
                let e = self.entries[i];
                self.entries.set(i, ChannelEntry { restart_pending: true, ..e });
                true
            },
            None => false,
        }
    }

    /// Takes the pending restart signal of `channel_id`, for its player loop.
    pub fn take_restart(&mut self, channel_id: u64) -> (r: bool)
        requires
            old(self).wf(),
        ensures
            final(self).wf(),
            ({
                let i = find(old(self).entries@, channel_id);
                &&& r == (i >= 0 && old(self).entries@[i].restart_pending)
                &&& i < 0 ==> final(self).entries@ == old(self).entries@
                &&& i >= 0 ==> final(self).entries@ == old(self).entries@.update(
                    i,
                    ChannelEntry { restart_pending: false, ..old(self).entries@[i] },
                )
            }),
    {
        proof {
            lemma_find(self.entries@, channel_id);
        }
        match self.index_of(channel_id) {
            Some(i) => {
                let e = self.entries[i];
                self.entries.set(i, ChannelEntry { restart_pending: false, ..e });
                e.restart_pending
            },
            None => false,
        }
    }

    /// The channels with a stream.
    pub fn active_channels(&self) -> (r: Vec<u64>)
        requires
            self.wf(),
        ensures
            r@.to_set() == channel_ids(self.entries@),
            r@.len() == self.entries@.len(),
    {
        let mut r: Vec<u64> = Vec::new();
        let mut i: usize = 0;
        while i < self.entries.len()
            invariant
                i <= self.entries@.len(),
                r@.len() == i,
                forall|k: int| 0 <= k < i ==> r@[k] == self.entries@[k].channel_id,
            decreases self.entries@.len() - i,
        {
            r.push(self.entries[i].channel_id);
            i = i + 1;
        }
        proof {
            lemma_find(self.entries@, 0);
            assert forall|c: u64| r@.to_set().contains(c) <==> channel_ids(self.entries@).contains(c) by {
                lemma_find(self.entries@, c);
                if r@.to_set().contains(c) {
                    let k = choose|k: int| 0 <= k < r@.len() && r@[k] == c;
                    assert(self.entries@[k].channel_id == c);
                } else if find(self.entries@, c) >= 0 {
                    assert(r@[find(self.entries@, c)] == c);
                }
            }
            assert(r@.to_set() =~= channel_ids(self.entries@));
        }
        r
    }

    /// Removes the streams that have had no listener for at least `grace`
    /// milliseconds at instant `now`, and returns their channels.
    pub fn collect_idle(&mut self, now: u64, grace: u64) -> (r: Vec<u64>)
        requires
            old(self).wf(),
        ensures
            final(self).wf(),
            final(self).entries@ == old(self).entries@.filter(|e: ChannelEntry| !is_expired(e, now, grace)),
            r@ == old(self).entries@.filter(|e: ChannelEntry| is_expired(e, now, grace)).map_values(
                |e: ChannelEntry| e.channel_id,
            ),
    {
        let ghost old_entries = self.entries@;
        let mut kept: Vec<ChannelEntry> = Vec::new();
        let mut gone: Vec<u64> = Vec::new();
        let mut i: usize = 0;
        while i < self.entries.len()
            invariant
                i <= self.entries@.len(),
                self.entries@ == old_entries,
                kept@ == old_entries.take(i as int).filter(|e: ChannelEntry| !is_expired(e, now, grace)),
                gone@ == old_entries.take(i as int).filter(|e: ChannelEntry| is_expired(e, now, grace)).map_values(
                    |e: ChannelEntry| e.channel_id,
                ),
            decreases self.entries@.len() - i,
        {
            let e = self.entries[i];
            proof {
                assert(old_entries.take(i as int + 1).drop_last() =~= old_entries.take(i as int));
                reveal(Seq::filter);
            }
            if expired(&e, now, grace) {
                gone.push(e.channel_id);
                proof {
                    assert(gone@ =~= old_entries.take(i as int + 1).filter(|e: ChannelEntry| is_expired(e, now, grace)).map_values(
                        |e: ChannelEntry| e.channel_id,
                    ));
                }
            } else {
                kept.push(e);
            }
            i = i + 1;
        }
        proof {
            assert(old_entries.take(old_entries.len() as int) =~= old_entries);
            lemma_filter_unique(old_entries, |e: ChannelEntry| !is_expired(e, now, grace));
        }
        self.entries = kept;
        gone
    }
}

/// Whether an entry has been idle for at least `grace` at instant `now`.
pub open spec fn is_expired(e: ChannelEntry, now: u64, grace: u64) -> bool {
    e.listeners == 0 && (e.idle_since matches Some(t) && now as int - t >= grace)
}

fn expired(e: &ChannelEntry, now: u64, grace: u64) -> (r: bool)
    ensures
        r == is_expired(*e, now, grace),
{
    match e.idle_since {
        Some(t) => e.listeners == 0 && now >= t && now - t >= grace,
        None => false,
    }
}

proof fn lemma_find_last_match(entries: Seq<ChannelEntry>, channel_id: u64, i: int)
    requires
        0 <= i < entries.len(),
        entries[i].channel_id == channel_id,
        find(entries, channel_id) <= i,
    ensures
        find(entries, channel_id) == i,
    decreases entries.len(),
{
    if i < entries.len() - 1 {
        assert(entries.last().channel_id != channel_id || find(entries, channel_id) == entries.len() - 1);
        lemma_find_last_match(entries.drop_last(), channel_id, i);
    }
}

proof fn lemma_find_skip(entries: Seq<ChannelEntry>, channel_id: u64, i: int)
    requires
        0 <= i < entries.len(),
        entries[i].channel_id != channel_id,
        find(entries, channel_id) <= i,
    ensures
        find(entries, channel_id) < i,
    decreases entries.len(),
{
    let d = entries.drop_last();
    lemma_find(d, channel_id);
    if i < entries.len() - 1 {
        assert(d[i] == entries[i]);
        lemma_find_skip(d, channel_id, i);
    }
}

proof fn lemma_filter_unique(entries: Seq<ChannelEntry>, keep: spec_fn(ChannelEntry) -> bool)
    requires
        forall|a: int, b: int| 0 <= a < b < entries.len() ==> entries[a].channel_id != entries[b].channel_id,
    ensures
        ({
            let f = entries.filter(keep);
            forall|a: int, b: int| 0 <= a < b < f.len() ==> f[a].channel_id != f[b].channel_id
        }),
    decreases entries.len(),
{
    reveal(Seq::filter);
    if entries.len() > 0 {
        let d = entries.drop_last();
        lemma_filter_unique(d, keep);
        let fd = d.filter(keep);
        assert forall|k: int| 0 <= k < fd.len() implies fd[k].channel_id != entries.last().channel_id by {
            d.lemma_filter_contains_rev(keep, fd[k]);
            let m = choose|m: int| 0 <= m < d.len() && d[m] == fd[k];
            assert(entries[m] == d[m]);
        }
    }
}

} // verus!
