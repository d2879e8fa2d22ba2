//! What the library decides for the media toolchain's processes: their
//! command lines, the packet timing read from their diagnostic output, and
//! the item that ends a decoder's output.
use vstd::prelude::*;
use vstd::string::StringSliceAdditionalSpecFns;
use crate::formats::{OutputFormat, is_mp3, bitrate_of};

verus! {

/// Sampling frequency of the internal PCM format, in Hz.
pub const AUDIO_SAMPLING_FREQUENCY: u32 = 48_000;

/// Number of channels of the internal PCM format.
pub const AUDIO_CHANNELS_NUMBER: u32 = 2;

/// Failures to start a codec process.
#[derive(Debug, Clone, Copy, PartialEq, Eq, Structural)]
pub enum AudioCodecError {
    ProcessError,
    StdoutUnavailable,
    StdinUnavailable,
}

/// Failures to start an encoder process.
#[derive(Debug, Clone, Copy, PartialEq, Eq, Structural)]
pub enum AudioEncoderError {
    ProcessError,
    StdoutUnavailable,
    StdinUnavailable,
}

/// Failures to start a transcoding process.
#[derive(Debug, Clone, Copy, PartialEq, Eq, Structural)]
pub enum TranscoderError {
    ProcessError,
    StdoutUnavailable,
    StdinUnavailable,
}

/// Timing of one output packet, as the toolchain reports it: presentation
/// and decode time in milliseconds, and the packet's size in bytes.
#[derive(Debug, Clone, Copy, PartialEq, Eq, Structural)]
pub struct PacketInfo {
    pub pts: u64,
    pub dts: u64,
    pub size: u64,
}

pub open spec fn lit_muxer() -> Seq<u8> {
    seq![109u8, 117u8, 120u8, 101u8, 114u8, 32u8, 60u8, 45u8, 32u8, 116u8, 121u8, 112u8, 101u8, 58u8,
        97u8, 117u8, 100u8, 105u8, 111u8, 32u8, 112u8, 107u8, 116u8, 95u8, 112u8, 116u8, 115u8, 58u8]
}

pub open spec fn lit_pts_time() -> Seq<u8> {
    seq![32u8, 112u8, 107u8, 116u8, 95u8, 112u8, 116u8, 115u8, 95u8, 116u8, 105u8, 109u8, 101u8, 58u8]
}

pub open spec fn lit_dts() -> Seq<u8> {
    seq![32u8, 112u8, 107u8, 116u8, 95u8, 100u8, 116u8, 115u8, 58u8]
}

pub open spec fn lit_dts_time() -> Seq<u8> {
    seq![32u8, 112u8, 107u8, 116u8, 95u8, 100u8, 116u8, 115u8, 95u8, 116u8, 105u8, 109u8, 101u8, 58u8]
}

pub open spec fn lit_size() -> Seq<u8> {
    seq![32u8, 115u8, 105u8, 122u8, 101u8, 58u8]
}

pub open spec fn is_digit(c: u8) -> bool {
    48 <= c <= 57
}

/// End of the run of digits that starts at `i`.
pub open spec fn run_end(b: Seq<u8>, i: int) -> int
    decreases b.len() - i,
{
    if 0 <= i < b.len() && is_digit(b[i]) {
        run_end(b, i + 1)
    } else {
        i
    }
}

/// The number that the digits `s` write in decimal.
pub open spec fn number(s: Seq<u8>) -> nat
    decreases s.len(),
{
    if s.len() == 0 {
        0
    } else {
        number(s.drop_last()) * 10 + (s.last() - 48) as nat
    }
}

/// Position after `lit` where it stands at `i`, else -1.
pub open spec fn after_lit(b: Seq<u8>, i: int, lit: Seq<u8>) -> int {
    if 0 <= i && i + lit.len() <= b.len() && b.subrange(i, i + lit.len()) == lit {
        i + lit.len()
    } else {
        -1
    }
}

/// Position after the digits (at least one) at `i`, else -1.
pub open spec fn after_digits(b: Seq<u8>, i: int) -> int {
    if 0 <= i && run_end(b, i) > i {
        run_end(b, i)
    } else {
        -1
    }
}

/// Position after a decimal `digits.digits` at `i`, else -1.
pub open spec fn after_decimal(b: Seq<u8>, i: int) -> int {
    let e = after_digits(b, i);
    if e >= 0 && e < b.len() && b[e] == 46u8 {
        after_digits(b, e + 1)
    } else {
        -1
    }
}

/// Milliseconds written by the decimal number of seconds at `i`: its whole
/// seconds, and its first three fractional digits.
pub open spec fn decimal_millis(b: Seq<u8>, i: int) -> nat {
    let e = run_end(b, i);
    let g = run_end(b, e + 1);
    let k = if g - (e + 1) > 3 { 3 } else { g - (e + 1) };
    let frac = number(b.subrange(e + 1, e + 1 + k));
    let scale: nat = if k == 3 { 1 } else if k == 2 { 10 } else { 100 };
    number(b.subrange(i, e)) * 1000 + frac * scale
}

/// Where each field of a packet line that starts at `i` begins; the last
/// position is the end of the line's match, -1 where there is no match.
pub open spec fn fields_at(b: Seq<u8>, i: int) -> (int, int, int, int) {
    let head_end = after_lit(b, i, lit_muxer());
    let pts_end = after_digits(b, head_end);
    let pts_time_at = after_lit(b, pts_end, lit_pts_time());
    let pts_time_end = after_decimal(b, pts_time_at);
    let dts_at = after_lit(b, pts_time_end, lit_dts());
    let dts_end = after_digits(b, dts_at);
    let dts_time_at = after_lit(b, dts_end, lit_dts_time());
    let dts_time_end = after_decimal(b, dts_time_at);
    let size_at = after_lit(b, dts_time_end, lit_size());
    (pts_time_at, dts_time_at, size_at, after_digits(b, size_at))
}

/// The packet that the line `b` reports from position `i` on:
/// `muxer <- type:audio pkt_pts:N pkt_pts_time:S.F pkt_dts:N pkt_dts_time:S.F size:N`.
pub open spec fn packet_at(b: Seq<u8>, i: int) -> Option<(nat, nat, nat)> {
    let (pts_time_at, dts_time_at, size_at, end) = fields_at(b, i);
    if end < 0 {
        None
    } else {
        Some((decimal_millis(b, pts_time_at), decimal_millis(b, dts_time_at), number(b.subrange(size_at, run_end(b, size_at)))))
    }
}

/// The first packet report of the line from position `i` on.
pub open spec fn first_packet(b: Seq<u8>, i: int) -> Option<(nat, nat, nat)>
    decreases b.len() - i,
{
    if i < 0 || i >= b.len() {
        None
    } else if packet_at(b, i) is Some {
        packet_at(b, i)
    } else {
        first_packet(b, i + 1)
    }
}

/// The timing that a diagnostic line reports, if it reports a packet whose
/// numbers fit in `u64`.
pub open spec fn packet_of_line(b: Seq<u8>) -> Option<PacketInfo> {
    match first_packet(b, 0) {
        Some(t) => fitting(t),
        None => None,
    }
}

/// The packet info of a reported triple whose numbers fit in `u64`.
pub open spec fn fitting(t: (nat, nat, nat)) -> Option<PacketInfo> {
    if t.0 <= u64::MAX && t.1 <= u64::MAX && t.2 <= u64::MAX {
        Some(PacketInfo { pts: t.0 as u64, dts: t.1 as u64, size: t.2 as u64 })
    } else {
        None
    }
}

/// A position as the spec functions write it: -1 for none.
pub open spec fn pos(p: Option<usize>) -> int {
    match p {
        Some(i) => i as int,
        None => -1,
    }
}

proof fn lemma_run_end(b: Seq<u8>, i: int)
    requires
        0 <= i,
    ensures
        i <= run_end(b, i),
        run_end(b, i) <= b.len() || run_end(b, i) == i,
        forall|k: int| i <= k < run_end(b, i) ==> is_digit(b[k]),
        run_end(b, i) < b.len() ==> !is_digit(b[run_end(b, i)]),
    decreases b.len() - i,
{
    if 0 <= i < b.len() && is_digit(b[i]) {
        lemma_run_end(b, i + 1);
    }
}

proof fn lemma_number_prefix(s: Seq<u8>, k: int, m: int)
    requires
        0 <= k <= m <= s.len(),
    ensures
        number(s.take(k)) <= number(s.take(m)),
    decreases m - k,
{
    if k < m {
        lemma_number_prefix(s, k, m - 1);
        assert(s.take(m).drop_last() =~= s.take(m - 1));
    }
}

fn literal_at(b: &Vec<u8>, i: Option<usize>, lit: &Vec<u8>) -> (r: Option<usize>)
    ensures
        pos(r) == after_lit(b@, pos(i), lit@),
        r matches Some(p) ==> p <= b@.len(),
{
    let start = match i {
        Some(start) => start,
        None => return None,
    };
    if lit.len() > b.len() || start > b.len() - lit.len() {
        return None;
    }
    let mut k: usize = 0;
    while k < lit.len()
        invariant
            i == Some(start),
            k <= lit@.len(),
            start + lit@.len() <= b@.len(),
            b@.len() <= usize::MAX,
            forall|m: int| 0 <= m < k ==> b@[start + m] == lit@[m],
        decreases lit@.len() - k,
    {
        if b[start + k] != lit[k] {
            proof {
                assert(b@.subrange(start as int, start + lit@.len())[k as int] != lit@[k as int]);
            }
            return None;
        }
        k = k + 1;
    }
    proof {
        assert(b@.subrange(start as int, start + lit@.len()) =~= lit@);
    }
    Some(start + lit.len())
}

fn digits_end(b: &Vec<u8>, i: usize) -> (r: usize)
    requires
        i <= b@.len(),
    ensures
        r == run_end(b@, i as int),
        i <= r <= b@.len(),
{
    proof {
        lemma_run_end(b@, i as int);
    }
    let mut j: usize = i;
    while j < b.len() && b[j] >= 48 && b[j] <= 57
        invariant
            i <= j <= b@.len(),
            run_end(b@, j as int) == run_end(b@, i as int),
        decreases b@.len() - j,
    {
        j = j + 1;
    }
    j
}

fn after_digit_run(b: &Vec<u8>, i: Option<usize>) -> (r: Option<usize>)
    ensures
        pos(r) == after_digits(b@, pos(i)),
        r matches Some(p) ==> p <= b@.len(),
{
    match i {
        Some(i) => {
            if i > b.len() {
                proof {
                    assert(run_end(b@, i as int) == i);
                }
                return None;
            }
            let e = digits_end(b, i);
            if e > i {
                Some(e)
            } else {
                None
            }
        },
        None => None,
    }
}

fn after_decimal_number(b: &Vec<u8>, i: Option<usize>) -> (r: Option<usize>)
    ensures
        pos(r) == after_decimal(b@, pos(i)),
        r matches Some(p) ==> p <= b@.len(),
{
    match after_digit_run(b, i) {
        Some(e) => {
            if e < b.len() && b[e] == 46u8 {
                after_digit_run(b, Some(e + 1))
            } else {
                None
            }
        },
        None => None,
    }
}

/// The number written by the digits `b[i..j]`, if it fits in `u64`.
fn read_number(b: &Vec<u8>, i: usize, j: usize) -> (r: Option<u64>)
    requires
        i <= j <= b@.len(),
        forall|k: int| i <= k < j ==> is_digit(b@[k]),
    ensures
        r == (if number(b@.subrange(i as int, j as int)) <= u64::MAX {
            Some(number(b@.subrange(i as int, j as int)) as u64)
        } else {
            None
        }),
{
    let ghost s = b@.subrange(i as int, j as int);
    let mut acc: u64 = 0;
    let mut k: usize = i;
    proof {
        assert(s.take(0) =~= Seq::<u8>::empty());
    }
    while k < j
        invariant
            i <= k <= j <= b@.len(),
            s == b@.subrange(i as int, j as int),
            forall|m: int| i <= m < j ==> is_digit(b@[m]),
            acc == number(s.take(k - i)),
        decreases j - k,
    {
        let d = (b[k] - 48) as u64;
        proof {
            assert(s.take(k - i + 1).drop_last() =~= s.take(k - i));
            assert(s.take(k - i + 1).last() == b@[k as int]);
        }
        if acc > (u64::MAX - d) / 10 {
            proof {
                assert(number(s.take(k - i + 1)) > u64::MAX) by (nonlinear_arith)
                    requires
                        number(s.take(k - i + 1)) == acc * 10 + d,
                        acc > (u64::MAX - d) / 10,
                        d <= 9;
                lemma_number_prefix(s, k - i + 1, s.len() as int);
                assert(s.take(s.len() as int) =~= s);
            }
            return None;
        }
        proof {
            assert(acc * 10 + d <= u64::MAX) by (nonlinear_arith)
                requires
                    acc <= (u64::MAX - d) / 10,
                    d <= 9;
        }
        acc = acc * 10 + d;
        k = k + 1;
    }
    proof {
        assert(s.take(j - i) =~= s);
    }
    Some(acc)
}

/// Milliseconds of the decimal number of seconds at `i`, if they fit in `u64`.
fn read_decimal_millis(b: &Vec<u8>, i: usize) -> (r: Option<u64>)
    requires
        after_decimal(b@, i as int) >= 0,
    ensures
        r == (if decimal_millis(b@, i as int) <= u64::MAX {
            Some(decimal_millis(b@, i as int) as u64)
        } else {
            None
        }),
{
    proof {
        lemma_run_end(b@, i as int);
    }
    assert(run_end(b@, i as int) > i);
    assert(i < b@.len());
    let e = digits_end(b, i);
    let n = b.len();
    assert(e < n);
    proof {
        lemma_run_end(b@, e + 1);
    }
    let g = digits_end(b, e + 1);
    let k: usize = if g - (e + 1) > 3 {
        3
    } else {
        g - (e + 1)
    };
    let scale: u64 = if k == 3 {
        1
    } else if k == 2 {
        10
    } else {
        100
    };
    let frac = read_number(b, e + 1, e + 1 + k);
    let whole = read_number(b, i, e);
    proof {
        let f = b@.subrange(e + 1, e + 1 + k);
        lemma_number_bound(f);
    }
    match (whole, frac) {
        (Some(w), Some(f)) => {
            if w > (u64::MAX - f * scale) / 1000 {
                proof {
                    assert(w * 1000 + f * scale > u64::MAX) by (nonlinear_arith)
                        requires
                            w > (u64::MAX - f * scale) / 1000,
                            f * scale <= 999;
                }
                None
            } else {
                proof {
                    assert(w * 1000 + f * scale <= u64::MAX) by (nonlinear_arith)
                        requires
                            w <= (u64::MAX - f * scale) / 1000,
                            f * scale <= 999;
                }
                Some(w * 1000 + f * scale)
            }
        },
        _ => None,
    }
}

proof fn lemma_number_bound(s: Seq<u8>)
    requires
        s.len() <= 3,
        forall|k: int| 0 <= k < s.len() ==> is_digit(s[k]),
    ensures
        s.len() == 3 ==> number(s) <= 999,
        s.len() == 2 ==> number(s) <= 99,
        s.len() <= 1 ==> number(s) <= 9,
    decreases s.len(),
{
    if s.len() > 0 {
        lemma_number_bound(s.drop_last());
    }
}

/// Tries a packet report at position `i`: None where there is none, else
/// the report if its numbers fit.
fn packet_at_exec(b: &Vec<u8>, i: usize) -> (r: Option<Option<PacketInfo>>)
    ensures
        r is None <==> packet_at(b@, i as int) is None,
        r matches Some(x) ==> x == fitting(packet_at(b@, i as int).unwrap()),
{
    let head_end = literal_at(b, Some(i), &muxer_literal());
    let pts_end = after_digit_run(b, head_end);
    let pts_time_at = literal_at(b, pts_end, &pts_time_literal());
    let pts_time_end = after_decimal_number(b, pts_time_at);
    let dts_at = literal_at(b, pts_time_end, &dts_literal());
    let dts_end = after_digit_run(b, dts_at);
    let dts_time_at = literal_at(b, dts_end, &dts_time_literal());
    let dts_time_end = after_decimal_number(b, dts_time_at);
    let size_at = literal_at(b, dts_time_end, &size_literal());
    let end = after_digit_run(b, size_at);
    match (pts_time_at, dts_time_at, size_at, end) {
        (Some(pts_time_at), Some(dts_time_at), Some(size_at), Some(end)) => {
            proof {
                lemma_run_end(b@, size_at as int);
            }
            let pts = read_decimal_millis(b, pts_time_at);
            let dts = read_decimal_millis(b, dts_time_at);
            let size = read_number(b, size_at, end);
            match (pts, dts, size) {
                (Some(pts), Some(dts), Some(size)) => Some(Some(PacketInfo { pts, dts, size })),
                _ => Some(None),
            }
        },
        _ => None,
    }
}

/// Reads the packet timing that a line of the toolchain's diagnostic output
/// reports, wherever in the line the report stands. None where the line
/// reports no packet, or one whose numbers do not fit in `u64`.
pub fn parse_packet_line(line: &str) -> (r: Option<PacketInfo>)
    ensures
        r == packet_of_line(line.spec_bytes()),
{
    let b = line.as_bytes_vec();
    let mut i: usize = 0;
    while i < b.len()
        invariant
            i <= b@.len(),
            b@ == line.spec_bytes(),
            first_packet(b@, i as int) == first_packet(b@, 0),
        decreases b@.len() - i,
    {
        match packet_at_exec(&b, i) {
            Some(found) => {
                return found;
            },
            None => {},
        }
        i = i + 1;
    }
    None
}

/// The timing of the latest packet that the diagnostic output reported:
/// bytes that arrive before the next report carry it.
pub struct TimingHints {
    pub last: Option<PacketInfo>,
}

impl TimingHints {
    pub fn new() -> (r: TimingHints)
        ensures
            r.last is None,
    {
        TimingHints { last: None }
    }

    /// Reads one diagnostic line; a packet report replaces the last one.
    pub fn observe_line(&mut self, line: &str)
        ensures
            final(self).last == match packet_of_line(line.spec_bytes()) {
                Some(p) => Some(p),
                None => old(self).last,
            },
    {
        if let Some(p) = parse_packet_line(line) {
            self.last = Some(p);
        }
    }

    /// Presentation and decode time, in milliseconds, for bytes that arrive
    /// now: those of the last report, zero before the first one.
    pub fn current(&self) -> (r: (u64, u64))
        ensures
            r == match self.last {
                Some(p) => (p.pts, p.dts),
                None => (0u64, 0u64),
            },
    {
        match self.last {
            Some(p) => (p.pts, p.dts),
            None => (0, 0),
        }
    }
}

/// The error item that ends a decoder's output after its process exited
/// with `code`: a non-zero exit code is reported, except 1 after the
/// output had been closed by its reader (the process was then stopped on
/// purpose).
pub fn decoder_exit_error(code: Option<i32>, output_closed: bool) -> (r: Option<i32>)
    ensures
        r == match code {
            Some(c) => if c == 0 || (c == 1 && output_closed) {
                None::<i32>
            } else {
                Some(c)
            },
            None => None,
        },
{
    match code {
        Some(c) => if c == 0 || (c == 1 && output_closed) {
            None
        } else {
            Some(c)
        },
        None => None,
    }
}

/// The text of a decimal digit.
pub open spec fn digit_text(d: nat) -> Seq<char> {
    if d == 0 { "0"@ } else if d == 1 { "1"@ } else if d == 2 { "2"@ } else if d == 3 { "3"@ }
    else if d == 4 { "4"@ } else if d == 5 { "5"@ } else if d == 6 { "6"@ } else if d == 7 { "7"@ }
    else if d == 8 { "8"@ } else { "9"@ }
}

/// `n` written in decimal.
pub open spec fn decimal_text(n: nat) -> Seq<char>
    decreases n,
{
    if n < 10 {
        digit_text(n)
    } else {
        decimal_text(n / 10) + digit_text(n % 10)
    }
}

/// `ms` milliseconds written as seconds with four decimals, as the
/// toolchain's seek option takes them.
pub open spec fn seconds_text(ms: nat) -> Seq<char> {
    let f = ms % 1000;
    decimal_text(ms / 1000) + "."@ + digit_text(f / 100) + digit_text((f / 10) % 10) + digit_text(f % 10) + "0"@
}

fn digit_str(d: u64) -> (r: &'static str)
    requires
        d < 10,
    ensures
        r@ == digit_text(d as nat),
{
    if d == 0 { "0" } else if d == 1 { "1" } else if d == 2 { "2" } else if d == 3 { "3" }
    else if d == 4 { "4" } else if d == 5 { "5" } else if d == 6 { "6" } else if d == 7 { "7" }
    else if d == 8 { "8" } else { "9" }
}

/// `n` written in decimal.
pub fn decimal_string(n: u64) -> (r: String)
    ensures
        r@ == decimal_text(n as nat),
    decreases n,
{
    if n < 10 {
        String::from_str(digit_str(n))
    } else {
        let mut s = decimal_string(n / 10);
        s.append(digit_str(n % 10));
        s
    }
}

/// `ms` milliseconds as seconds with four decimals.
pub fn seconds_string(ms: u64) -> (r: String)
    ensures
        r@ == seconds_text(ms as nat),
{
    let f = ms % 1000;
    let mut s = decimal_string(ms / 1000);
    s.append(".");
    s.append(digit_str(f / 100));
    s.append(digit_str((f / 10) % 10));
    s.append(digit_str(f % 10));
    s.append("0");
    s
}

pub open spec fn texts(v: Seq<String>) -> Seq<Seq<char>> {
    v.map_values(|s: String| s@)
}

/// Command line of a decoder of `url` from offset `offset_ms`: raw PCM in
/// the internal format on its output, packet timing on its diagnostics.
pub open spec fn decoder_command(url: Seq<char>, offset_ms: nat) -> Seq<Seq<char>> {
    seq!["-debug_ts"@, "-v"@, "info"@, "-nostats"@, "-hide_banner"@, "-ss"@, seconds_text(offset_ms),
        "-i"@, url, "-vn"@, "-codec:a"@, "pcm_s16le"@, "-ar"@, "48000"@, "-ac"@, "2"@, "-f"@,
        "s16le"@, "-"@]
}

/// Command line of an encoder of internal PCM into `format`.
pub open spec fn encoder_command(format: OutputFormat) -> Seq<Seq<char>> {
    seq!["-debug_ts"@, "-v"@, "info"@, "-nostats"@, "-hide_banner"@, "-acodec"@, "pcm_s16le"@,
        "-ar"@, "48000"@, "-ac"@, "2"@, "-f"@, "s16le"@, "-i"@, "-"@, "-map_metadata"@, "-1"@,
        "-vn"@, "-ar"@, "48000"@, "-ac"@, "2"@, "-b:a"@, decimal_text(bitrate_of(format) as nat) + "k"@,
        "-codec:a"@, if is_mp3(format) { "libmp3lame"@ } else { "aac"@ }, "-f"@,
        if is_mp3(format) { "mp3"@ } else { "adts"@ }, "-"@]
}

fn push_str(v: &mut Vec<String>, s: &str)
    ensures
        texts(final(v)@) == texts(old(v)@).push(s@),
{
    let ghost before = v@;
    v.push(String::from_str(s));
    proof {
        assert(texts(v@) =~= texts(before).push(s@));
    }
}

/// Arguments of the decoder process for `url` at offset `offset_ms`.
pub fn decoder_args(url: &str, offset_ms: u64) -> (r: Vec<String>)
    ensures
        texts(r@) == decoder_command(url@, offset_ms as nat),
{
    let mut v: Vec<String> = Vec::new();
    push_str(&mut v, "-debug_ts");
    push_str(&mut v, "-v");
    push_str(&mut v, "info");
    push_str(&mut v, "-nostats");
    push_str(&mut v, "-hide_banner");
    push_str(&mut v, "-ss");
    let ghost before = v@;
    v.push(seconds_string(offset_ms));
    proof {
        assert(texts(v@) =~= texts(before).push(seconds_text(offset_ms as nat)));
    }
    push_str(&mut v, "-i");
    push_str(&mut v, url);
    push_str(&mut v, "-vn");
    push_str(&mut v, "-codec:a");
    push_str(&mut v, "pcm_s16le");
    push_str(&mut v, "-ar");
    push_str(&mut v, "48000");
    push_str(&mut v, "-ac");
    push_str(&mut v, "2");
    push_str(&mut v, "-f");
    push_str(&mut v, "s16le");
    push_str(&mut v, "-");
    proof {
        assert(texts(v@) =~= decoder_command(url@, offset_ms as nat));
    }
    v
}

/// Arguments of the encoder process for `format`.
pub fn encoder_args(format: OutputFormat) -> (r: Vec<String>)
    ensures
        texts(r@) == encoder_command(format),
{
    let mut v: Vec<String> = Vec::new();
    push_str(&mut v, "-debug_ts");
    push_str(&mut v, "-v");
    push_str(&mut v, "info");
    push_str(&mut v, "-nostats");
    push_str(&mut v, "-hide_banner");
    push_str(&mut v, "-acodec");
    push_str(&mut v, "pcm_s16le");
    push_str(&mut v, "-ar");
    push_str(&mut v, "48000");
    push_str(&mut v, "-ac");
    push_str(&mut v, "2");
    push_str(&mut v, "-f");
    push_str(&mut v, "s16le");
    push_str(&mut v, "-i");
    push_str(&mut v, "-");
    push_str(&mut v, "-map_metadata");
    push_str(&mut v, "-1");
    push_str(&mut v, "-vn");
    push_str(&mut v, "-ar");
    push_str(&mut v, "48000");
    push_str(&mut v, "-ac");
    push_str(&mut v, "2");
    push_str(&mut v, "-b:a");
    let mut rate = decimal_string(format.bitrate() as u64);
    rate.append("k");
    let ghost before = v@;
    v.push(rate);
    proof {
        assert(texts(v@) =~= texts(before).push(decimal_text(bitrate_of(format) as nat) + "k"@));
    }
    push_str(&mut v, "-codec:a");
    push_str(&mut v, format.codec());
    push_str(&mut v, "-f");
    push_str(&mut v, format.container());
    push_str(&mut v, "-");
    proof {
        assert(texts(v@) =~= encoder_command(format));
    }
    v
}

fn muxer_literal() -> (r: Vec<u8>)
    ensures
        r@ == lit_muxer(),
{
    let r = vec![109u8, 117u8, 120u8, 101u8, 114u8, 32u8, 60u8, 45u8, 32u8, 116u8, 121u8, 112u8, 101u8, 58u8,
        97u8, 117u8, 100u8, 105u8, 111u8, 32u8, 112u8, 107u8, 116u8, 95u8, 112u8, 116u8, 115u8, 58u8];
    proof {
        assert(r@ =~= lit_muxer());
    }
    r
}

fn pts_time_literal() -> (r: Vec<u8>)
    ensures
        r@ == lit_pts_time(),
{
    let r = vec![32u8, 112u8, 107u8, 116u8, 95u8, 112u8, 116u8, 115u8, 95u8, 116u8, 105u8, 109u8, 101u8, 58u8];
    proof {
        assert(r@ =~= lit_pts_time());
    }
    r
}

fn dts_literal() -> (r: Vec<u8>)
    ensures
        r@ == lit_dts(),
{
    let r = vec![32u8, 112u8, 107u8, 116u8, 95u8, 100u8, 116u8, 115u8, 58u8];
    proof {
        assert(r@ =~= lit_dts());
    }
    r
}

fn dts_time_literal() -> (r: Vec<u8>)
    ensures
        r@ == lit_dts_time(),
{
    let r = vec![32u8, 112u8, 107u8, 116u8, 95u8, 100u8, 116u8, 115u8, 95u8, 116u8, 105u8, 109u8, 101u8, 58u8];
    proof {
        assert(r@ =~= lit_dts_time());
    }
    r
}

fn size_literal() -> (r: Vec<u8>)
    ensures
        r@ == lit_size(),
{
    let r = vec![32u8, 115u8, 105u8, 122u8, 101u8, 58u8];
    proof {
        assert(r@ =~= lit_size());
    }
    r
}

} // verus!
