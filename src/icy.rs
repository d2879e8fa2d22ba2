//! Inline stream-title metadata: after every `interval` bytes of audio
//! payload, a block of one length byte N and N * 16 bytes of text, padded
//! with zeros. A block that carries no new title is the single byte 0.
use vstd::prelude::*;
use crate::bytes::append_range;

use vstd::string::StringSliceAdditionalSpecFns;

verus! {

/// Bytes of audio payload between two metadata blocks.
pub const ICY_METADATA_INTERVAL: usize = 8192;

/// Longest metadata text a block can carry: 255 units of 16 bytes.
pub const MAX_METADATA_LEN: usize = 4080;

/// Length of `StreamTitle='` plus `';`.
pub const TITLE_FRAME_LEN: usize = 15;

pub open spec fn title_prefix() -> Seq<u8> {
    seq![83u8, 116u8, 114u8, 101u8, 97u8, 109u8, 84u8, 105u8, 116u8, 108u8, 101u8, 61u8, 39u8]
}

pub open spec fn title_suffix() -> Seq<u8> {
    seq![39u8, 59u8]
}

/// Metadata text announcing `title` (its bytes): `StreamTitle='<title>';`,
/// the title cut so that the text fits in one block.
pub open spec fn title_text(title: Seq<u8>) -> Seq<u8> {
    let t = if title.len() > MAX_METADATA_LEN - TITLE_FRAME_LEN {
        title.take(MAX_METADATA_LEN - TITLE_FRAME_LEN)
    } else {
        title
    };
    title_prefix() + t + title_suffix()
}

/// Units of 16 bytes needed for `len` bytes of text.
pub open spec fn units(len: nat) -> nat {
    (len + 15) / 16
}

/// The metadata block for `text`: its length in units of 16 bytes, the text,
/// and zeros up to that length.
pub open spec fn metadata_block(text: Seq<u8>) -> Seq<u8> {
    let n = units(text.len());
    seq![n as u8] + text + Seq::new((n * 16 - text.len()) as nat, |i: int| 0u8)
}

/// The block that follows the next payload chunk: the pending text's, or the
/// empty block.
pub open spec fn block_for(pending: Option<Seq<u8>>) -> Seq<u8> {
    match pending {
        Some(text) => metadata_block(text),
        None => seq![0u8],
    }
}

/// A well-formed block: its first byte gives the length of the rest in units of 16.
pub open spec fn is_block(block: Seq<u8>) -> bool {
    block.len() >= 1 && block.len() == 1 + 16 * (block[0] as int)
}

/// The muxed form of `input` for a muxer that has passed `since` payload
/// bytes since its last block: payload up to the next interval boundary, then
/// `block`, then the rest, with empty blocks at later boundaries.
pub open spec fn mux(input: Seq<u8>, since: nat, interval: nat, block: Seq<u8>) -> Seq<u8>
    decreases input.len(),
{
    if since >= interval || input.len() < interval - since {
        input
    } else {
        let room = (interval - since) as int;
        input.take(room) + block + mux(input.skip(room), 0, interval, seq![0u8])
    }
}

/// Payload bytes since the last block once `len` more bytes have passed.
pub open spec fn since_after(len: nat, since: nat, interval: nat) -> nat {
    if since >= interval || len < interval - since {
        since + len
    } else {
        ((len - (interval - since)) as nat) % interval
    }
}

/// A muxed stream with its metadata blocks taken out, for a reader that has
/// read `since` payload bytes since the last block.
pub open spec fn strip(out: Seq<u8>, since: nat, interval: nat) -> Seq<u8>
    decreases out.len(),
{
    if since >= interval || out.len() <= interval - since {
        out
    } else {
        let room = (interval - since) as int;
        let next = room + 1 + 16 * (out[room] as int);
        if next >= out.len() {
            out.take(room)
        } else {
            out.take(room) + strip(out.skip(next), 0, interval)
        }
    }
}

/// Blocks of metadata are what `mux` inserts, and taking them out gives the
/// payload back unchanged.
pub proof fn lemma_strip_mux(input: Seq<u8>, since: nat, interval: nat, block: Seq<u8>)
    requires
        since < interval,
        is_block(block),
    ensures
        strip(mux(input, since, interval, block), since, interval) == input,
    decreases input.len(),
{
    let room = (interval - since) as int;
    if input.len() >= room {
        let rest = mux(input.skip(room), 0, interval, seq![0u8]);
        let out = mux(input, since, interval, block);
        assert(out == input.take(room) + block + rest);
        assert(out[room] == block[0]);
        let next = room + 1 + 16 * (block[0] as int);
        lemma_strip_mux(input.skip(room), 0, interval, seq![0u8]);
        assert(out.take(room) =~= input.take(room));
        assert(out.skip(next) =~= rest);
        if next >= out.len() {
            assert(rest.len() == 0);
            assert(input.skip(room).len() == 0) by {
                if input.skip(room).len() > 0 {
                    lemma_mux_nonempty(input.skip(room), 0, interval, seq![0u8]);
                }
            }
            assert(input =~= input.take(room));
        } else {
            assert(input =~= input.take(room) + input.skip(room));
        }
    }
}

/// Muxing is the same in chunks as in one piece: muxing `a` and then `b`,
/// each from the state the previous chunk left (payload bytes since the
/// last block, and the pending block if no boundary fell within `a`),
/// gives the bytes of muxing `a + b` at once. So blocks fall every
/// `interval` payload bytes however the stream is cut.
pub proof fn lemma_mux_chunks(a: Seq<u8>, b: Seq<u8>, since: nat, interval: nat, block: Seq<u8>)
    requires
        since < interval,
    ensures
        mux(a + b, since, interval, block) == mux(a, since, interval, block) + mux(
            b,
            since_after(a.len(), since, interval),
            interval,
            if a.len() < interval - since { block } else { seq![0u8] },
        ),
    decreases a.len(),
{
    let room = (interval - since) as int;
    let ab = a + b;
    if a.len() < room {
        if ab.len() >= room {
            let r2 = room - a.len();
            assert(ab.take(room) =~= a + b.take(r2));
            assert(ab.skip(room) =~= b.skip(r2));
        } else {
            assert(mux(ab, since, interval, block) == ab);
        }
    } else {
        let rest = a.skip(room);
        assert(ab.take(room) =~= a.take(room));
        assert(ab.skip(room) =~= rest + b);
        lemma_mux_chunks(rest, b, 0, interval, seq![0u8]);
        lemma_since_after_step(a.len(), since, interval);
        assert(since_after(rest.len(), 0, interval) == since_after(a.len(), since, interval));
    }
}

proof fn lemma_since_after_step(len: nat, since: nat, interval: nat)
    requires
        since < interval,
        len >= interval - since,
    ensures
        since_after((len - (interval - since)) as nat, 0, interval) == since_after(len, since, interval),
{
    let x = (len - (interval - since)) as int;
    if x < interval {
        vstd::arithmetic::div_mod::lemma_small_mod(x as nat, interval);
    } else {
        vstd::arithmetic::div_mod::lemma_mod_multiples_vanish(1, x - interval, interval as int);
    }
}

proof fn lemma_mux_nonempty(input: Seq<u8>, since: nat, interval: nat, block: Seq<u8>)
    requires
        input.len() > 0,
        since < interval,
    ensures
        mux(input, since, interval, block).len() > 0,
{
}

/// Inserts metadata blocks into an encoded byte stream.
pub struct IcyMuxer {
    /// Bytes of payload between two blocks.
    pub interval: usize,
    /// Payload bytes passed since the last block.
    pub since_block: usize,
    /// Text of the title set since the last block, if any.
    pub pending: Option<Vec<u8>>,
}

impl IcyMuxer {
    pub open spec fn wf(&self) -> bool {
        &&& 0 < self.interval
        &&& self.since_block < self.interval
        &&& self.pending matches Some(t) ==> t@.len() <= MAX_METADATA_LEN
    }

    pub open spec fn pending_text(&self) -> Option<Seq<u8>> {
        match self.pending {
            Some(t) => Some(t@),
            None => None,
        }
    }

    /// A muxer with `ICY_METADATA_INTERVAL` bytes between blocks.
    pub fn new() -> (r: IcyMuxer)
        ensures
            r.wf(),
            r.interval == ICY_METADATA_INTERVAL,
            r.since_block == 0,
            r.pending is None,
    {
        IcyMuxer { interval: ICY_METADATA_INTERVAL, since_block: 0, pending: None }
    }

    /// A muxer with `interval` bytes between blocks.
    pub fn with_interval(interval: usize) -> (r: IcyMuxer)
        requires
            interval > 0,
        ensures
            r.wf(),
            r.interval == interval,
            r.since_block == 0,
            r.pending is None,
    {
        IcyMuxer { interval, since_block: 0, pending: None }
    }

    /// Sets the title that the next block announces.
    pub fn send_track_title(&mut self, title: &str)
        requires
            old(self).wf(),
        ensures
            final(self).wf(),
            final(self).pending_text() == Some(title_text(title.spec_bytes())),
            final(self).interval == old(self).interval,
            final(self).since_block == old(self).since_block,
    {
        let bytes = title.as_bytes_vec();
        let mut text: Vec<u8> = Vec::new();
        text.push(83u8);
        text.push(116u8);
        text.push(114u8);
        text.push(101u8);
        text.push(97u8);
        text.push(109u8);
        text.push(84u8);
        text.push(105u8);
        text.push(116u8);
        text.push(108u8);
        text.push(101u8);
        text.push(61u8);
        text.push(39u8);
        let keep = if bytes.len() > MAX_METADATA_LEN - TITLE_FRAME_LEN {
            MAX_METADATA_LEN - TITLE_FRAME_LEN
        } else {
            bytes.len()
        };
        append_range(&mut text, &bytes, 0, keep);
        text.push(39u8);
        text.push(59u8);
        proof {
            assert(text@ =~= title_text(bytes@));
        }
        self.pending = Some(text);
    }

    /// Muxes the next chunk of payload. The pending title, if any, goes into
    /// the first block that falls within the chunk; later blocks are empty.
    pub fn handle_bytes(&mut self, input: &Vec<u8>) -> (r: Vec<u8>)
        requires
            old(self).wf(),
        ensures
            final(self).wf(),
            r@ == mux(
                input@,
                old(self).since_block as nat,
                old(self).interval as nat,
                block_for(old(self).pending_text()),
            ),
            final(self).since_block == since_after(
                input@.len(),
                old(self).since_block as nat,
                old(self).interval as nat,
            ),
            final(self).pending_text() == if input@.len() < old(self).interval - old(self).since_block {
                old(self).pending_text()
            } else {
                None
            },
            final(self).interval == old(self).interval,
    {
        let interval = self.interval;
        let ghost since0 = self.since_block as nat;
        let ghost block0 = block_for(self.pending_text());
        let mut out: Vec<u8> = Vec::new();
        let mut pos: usize = 0;
        proof {
            assert(input@.skip(0) =~= input@);
        }
        loop
            invariant
                self.wf(),
                self.interval == interval,
                interval == old(self).interval,
                since0 == old(self).since_block,
                block0 == block_for(old(self).pending_text()),
                pos <= input@.len(),
                out@ + mux(
                    input@.skip(pos as int),
                    self.since_block as nat,
                    interval as nat,
                    block_for(self.pending_text()),
                ) == mux(input@, since0, interval as nat, block0),
                pos > 0 ==> self.pending is None,
                since_after((input@.len() - pos) as nat, self.since_block as nat, interval as nat)
                    == since_after(input@.len(), since0, interval as nat),
                pos == 0 ==> self.since_block == since0 && self.pending_text() == old(self).pending_text(),
                pos > 0 ==> input@.len() >= old(self).interval - old(self).since_block,
            decreases input@.len() - pos,
        {
            let room = interval - self.since_block;
            let left = input.len() - pos;
            if left < room {
                let ghost prev = out@;
                append_range(&mut out, input, pos, input.len());
                proof {
                    assert(input@.skip(pos as int) =~= input@.subrange(pos as int, input@.len() as int));
                    assert(mux(input@.skip(pos as int), self.since_block as nat, interval as nat,
                        block_for(self.pending_text())) == input@.skip(pos as int));
                    assert(out@ == prev + input@.skip(pos as int));
                }
                self.since_block = self.since_block + left;
                return out;
            }
            proof {
                let rest = input@.skip(pos as int);
                assert(rest.take(room as int) =~= input@.subrange(pos as int, pos + room));
                assert(rest.skip(room as int) =~= input@.skip(pos + room));
            }
            proof {
                lemma_since_after_step((input@.len() - pos) as nat, self.since_block as nat, interval as nat);
            }
            append_range(&mut out, input, pos, pos + room);
            self.append_block(&mut out);
            self.since_block = 0;
            pos = pos + room;
        }
    }

    /// Appends the block for the pending text and clears it.
    fn append_block(&mut self, out: &mut Vec<u8>)
        requires
            old(self).wf(),
        ensures
            final(self).wf(),
            final(out)@ == old(out)@ + block_for(old(self).pending_text()),
            final(self).pending is None,
            final(self).interval == old(self).interval,
            final(self).since_block == old(self).since_block,
    {
        let ghost before = out@;
        match self.pending.take() {
            Some(text) => {
                assert(text@.len() <= MAX_METADATA_LEN);
                let n: usize = (text.len() + 15) / 16;
                assert(n <= 255);
                out.push(n as u8);
                append_range(out, &text, 0, text.len());
                let mut k: usize = text.len();
                let ghost base = out@;
                while k < n * 16
                    invariant
                        n <= 255,
                        text.len() <= k <= n * 16,
                        out@ == base + Seq::new((k - text.len()) as nat, |i: int| 0u8),
                    decreases n * 16 - k,
                {
                    out.push(0u8);
                    k = k + 1;
                    proof {
                        assert(out@ =~= base + Seq::new((k - text.len()) as nat, |i: int| 0u8));
                    }
                }
                proof {
                    assert(text@.subrange(0, text@.len() as int) =~= text@);
                    assert(out@ =~= before + metadata_block(text@));
                }
            },
            None => {
                out.push(0u8);
            },
        }
    }
}

} // verus!
