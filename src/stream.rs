//! A channel's stream: the title last announced and one broadcast per
//! output format, created when the first listener asks for that format.
use vstd::prelude::*;
use crate::broadcast::{StreamMessage, TimedBroadcast, REPLAY_WINDOW, SUBSCRIBER_CAPACITY};
use crate::formats::OutputFormat;

verus! {

/// The encoded output of one format.
pub struct FormatOutput {
    pub format: OutputFormat,
    pub broadcast: TimedBroadcast,
}

pub struct Stream {
    pub channel_id: u64,
    /// Title last announced.
    pub title: String,
    pub outputs: Vec<FormatOutput>,
}

/// Index of the output of `format`, or -1.
pub open spec fn output_index(outputs: Seq<FormatOutput>, format: OutputFormat) -> int
    decreases outputs.len(),
{
    if outputs.len() == 0 {
        -1
    } else if outputs.last().format == format {
        outputs.len() - 1
    } else {
        output_index(outputs.drop_last(), format)
    }
}

proof fn lemma_output_index(outputs: Seq<FormatOutput>, format: OutputFormat)
    ensures
        -1 <= output_index(outputs, format) < outputs.len(),
        output_index(outputs, format) >= 0 ==> outputs[output_index(outputs, format)].format == format,
        output_index(outputs, format) < 0 ==> forall|i: int| 0 <= i < outputs.len() ==> outputs[i].format != format,
    decreases outputs.len(),
{
    if outputs.len() > 0 {
        let d = outputs.drop_last();
        lemma_output_index(d, format);
        if output_index(outputs, format) < 0 {
            assert forall|i: int| 0 <= i < outputs.len() implies outputs[i].format != format by {
                if i < d.len() {
                    assert(outputs[i] == d[i]);
                }
            }
        }
    }
}

proof fn lemma_output_index_unique(outputs: Seq<FormatOutput>, i: int)
    requires
        0 <= i < outputs.len(),
        forall|a: int, b: int| 0 <= a < b < outputs.len() ==> outputs[a].format != outputs[b].format,
    ensures
        output_index(outputs, outputs[i].format) == i,
    decreases outputs.len(),
{
    if i < outputs.len() - 1 {
        lemma_output_index_unique(outputs.drop_last(), i);
    }
}

impl Stream {
    pub open spec fn wf(&self) -> bool {
        &&& forall|a: int, b: int|
            0 <= a < b < self.outputs@.len() ==> self.outputs@[a].format != self.outputs@[b].format
        &&& forall|i: int| 0 <= i < self.outputs@.len() ==> (#[trigger] self.outputs@[i]).broadcast.wf()
    }

    /// A stream with no title announced and no output yet.
    pub fn new(channel_id: u64) -> (r: Stream)
        ensures
            r.wf(),
            r.channel_id == channel_id,
            r.title@ == Seq::<char>::empty(),
            r.outputs@.len() == 0,
    {
        Stream { channel_id, title: String::new(), outputs: Vec::new() }
    }

    /// Records the title last announced.
    pub fn announce_title(&mut self, title: String)
        ensures
            final(self).title == title,
            final(self).channel_id == old(self).channel_id,
            final(self).outputs == old(self).outputs,
    {
        self.title = title;
    }

    /// The title last announced, for a listener that joins now.
    pub fn track_title(&self) -> (r: String)
        ensures
            r == self.title,
    {
        self.title.clone()
    }

    fn find_output(&self, format: OutputFormat) -> (r: Option<usize>)
        requires
            self.wf(),
        ensures
            r matches Some(i) ==> i == output_index(self.outputs@, format),
            r is None ==> output_index(self.outputs@, format) == -1,
    {
        proof {
            lemma_output_index(self.outputs@, format);
        }
        let mut i: usize = 0;
        while i < self.outputs.len()
            invariant
                i <= self.outputs@.len(),
                self.wf(),
                forall|j: int| 0 <= j < i ==> self.outputs@[j].format != format,
            decreases self.outputs@.len() - i,
        {
            if self.outputs[i].format == format {
                proof {
                    lemma_output_index_unique(self.outputs@, i as int);
                }
                return Some(i);
            }
            i = i + 1;
        }
        None
    }

    /// Subscribes a listener of `format` at instant `now`, creating the
    /// format's output when it has none. Returns whether the output was
    /// created (its encoder is then to be started) and the subscriber's id.
    pub fn subscribe(&mut self, format: OutputFormat, now: u64) -> (r: (bool, u64))
        requires
            old(self).wf(),
            output_index(old(self).outputs@, format) >= 0 ==> old(self).outputs@[output_index(
                old(self).outputs@,
                format,
            )].broadcast.next_id < u64::MAX,
        ensures
            final(self).wf(),
            r.0 == (output_index(old(self).outputs@, format) < 0),
            output_index(final(self).outputs@, format) >= 0,
            r.0 ==> final(self).outputs@.len() == old(self).outputs@.len() + 1,
            !r.0 ==> final(self).outputs@.len() == old(self).outputs@.len(),
            ({
                let i = output_index(final(self).outputs@, format);
                let b = final(self).outputs@[i].broadcast;
                &&& b.subscribers@.len() > 0
                &&& b.subscribers@.last().id == r.1
            }),
            forall|j: int|
                0 <= j < old(self).outputs@.len() && old(self).outputs@[j].format != format
                    ==> #[trigger] final(self).outputs@[j] == old(self).outputs@[j],
            final(self).title == old(self).title,
            final(self).channel_id == old(self).channel_id,
    {
        proof {
            lemma_output_index(self.outputs@, format);
        }
        match self.find_output(format) {
            Some(i) => {
                let ghost before = self.outputs@;
                let id = self.outputs[i].broadcast.subscribe(now);
                proof {
                    assert forall|j: int| 0 <= j < before.len() && j != i implies #[trigger] self.outputs@[j] == before[j] by {}
                    assert forall|a: int, b: int| 0 <= a < b < self.outputs@.len() implies self.outputs@[a].format != self.outputs@[b].format by {
                        assert(self.outputs@[a].format == before[a].format);
                        assert(self.outputs@[b].format == before[b].format);
                    }
                    lemma_output_index_unique(self.outputs@, i as int);
                }
                (false, id)
            },
            None => {
                let mut broadcast = TimedBroadcast::new(REPLAY_WINDOW, SUBSCRIBER_CAPACITY);
                let id = broadcast.subscribe(now);
                let ghost before = self.outputs@;
                self.outputs.push(FormatOutput { format, broadcast });
                proof {
                    lemma_output_index(self.outputs@, format);
                    assert(self.outputs@.last().format == format);
                    assert(self.outputs@.drop_last() =~= before);
                    assert forall|a: int, b: int| 0 <= a < b < self.outputs@.len() implies self.outputs@[a].format != self.outputs@[b].format by {
                        if b == self.outputs@.len() - 1 {
                            assert(before[a].format != format);
                        }
                    }
                }
                (true, id)
            },
        }
    }

    /// Sends `m` at `now` to the listeners of `format`. Returns whether the
    /// format has an open output.
    pub fn publish(&mut self, format: OutputFormat, m: StreamMessage, now: u64) -> (r: bool)
        requires
            old(self).wf(),
        ensures
            final(self).wf(),
            r == (output_index(old(self).outputs@, format) >= 0
                && !old(self).outputs@[output_index(old(self).outputs@, format)].broadcast.closed),
            final(self).outputs@.len() == old(self).outputs@.len(),
            forall|j: int|
                0 <= j < old(self).outputs@.len() && old(self).outputs@[j].format != format
                    ==> #[trigger] final(self).outputs@[j] == old(self).outputs@[j],
            r ==> final(self).outputs@[output_index(old(self).outputs@, format)].broadcast.sent@
                == old(self).outputs@[output_index(old(self).outputs@, format)].broadcast.sent@.push(m@),
            final(self).title == old(self).title,
    {
        proof {
            lemma_output_index(self.outputs@, format);
        }
        match self.find_output(format) {
            Some(i) => {
                let ghost before = self.outputs@;
                let r = self.outputs[i].broadcast.send(m, now);
                proof {
                    assert forall|j: int| 0 <= j < before.len() && j != i implies #[trigger] self.outputs@[j] == before[j] by {}
                    assert forall|a: int, b: int| 0 <= a < b < self.outputs@.len() implies self.outputs@[a].format != self.outputs@[b].format by {
                        assert(self.outputs@[a].format == before[a].format);
                        assert(self.outputs@[b].format == before[b].format);
                    }
                }
                r
            },
            None => false,
        }
    }

    /// Tears down the output of `format` after its encoder failed: its
    /// listeners see the end of the stream; other formats are untouched.
    pub fn close_output(&mut self, format: OutputFormat)
        requires
            old(self).wf(),
        ensures
            final(self).wf(),
            final(self).outputs@.len() == old(self).outputs@.len(),
            output_index(old(self).outputs@, format) >= 0 ==> final(self).outputs@[output_index(
                old(self).outputs@,
                format,
            )].broadcast.closed,
            forall|j: int|
                0 <= j < old(self).outputs@.len() && old(self).outputs@[j].format != format
                    ==> #[trigger] final(self).outputs@[j] == old(self).outputs@[j],
            final(self).title == old(self).title,
    {
        proof {
            lemma_output_index(self.outputs@, format);
        }
        if let Some(i) = self.find_output(format) {
            let ghost before = self.outputs@;
            self.outputs[i].broadcast.close();
            proof {
                assert forall|j: int| 0 <= j < before.len() && j != i implies #[trigger] self.outputs@[j] == before[j] by {}
                assert forall|a: int, b: int| 0 <= a < b < self.outputs@.len() implies self.outputs@[a].format != self.outputs@[b].format by {
                    assert(self.outputs@[a].format == before[a].format);
                    assert(self.outputs@[b].format == before[b].format);
                }
            }
        }
    }
}

} // verus!
