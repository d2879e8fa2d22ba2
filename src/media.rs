//! Timestamps in a rational time base, and decoded PCM frames.
use vstd::prelude::*;
use std::sync::Arc;

verus! {

/// Time base of the library's own timestamps: milliseconds.
pub const INTERNAL_TIME_BASE: (i32, i32) = (1, 1000);

/// A time given as `value` units of `time_base.0 / time_base.1` seconds.
#[derive(Clone, Copy, Debug, PartialEq, Eq)]
pub struct Timestamp {
    value: i64,
    time_base: (i32, i32),
}

/// Milliseconds of a timestamp: `value * num / den` seconds, rounded down;
/// None where the time base's denominator is not positive, the time is
/// negative, or it does not fit in `u64`.
pub open spec fn millis_of(value: i64, num: i32, den: i32) -> Option<u64> {
    let n = value * num * 1000;
    if den <= 0 || n < 0 || n / (den as int) > u64::MAX {
        None
    } else {
        Some((n / (den as int)) as u64)
    }
}

impl Timestamp {
    pub closed spec fn spec_value(&self) -> i64 {
        self.value
    }

    pub closed spec fn spec_time_base(&self) -> (i32, i32) {
        self.time_base
    }

    pub fn new(value: i64, time_base: (i32, i32)) -> (r: Timestamp)
        ensures
            r.spec_value() == value,
            r.spec_time_base() == time_base,
    {
        Timestamp { value, time_base }
    }

    pub fn value(&self) -> (r: i64)
        ensures
            r == self.spec_value(),
    {
        self.value
    }

    pub fn time_base(&self) -> (r: (i32, i32))
        ensures
            r == self.spec_time_base(),
    {
        self.time_base
    }

    /// The timestamp of `ms` milliseconds, in the internal time base.
    pub fn from_millis(ms: u64) -> (r: Timestamp)
        requires
            ms <= i64::MAX,
        ensures
            r.spec_value() == ms,
            r.spec_time_base() == INTERNAL_TIME_BASE,
    {
        Timestamp { value: ms as i64, time_base: INTERNAL_TIME_BASE }
    }

    /// The zero timestamp in the internal time base.
    pub fn zero() -> (r: Timestamp)
        ensures
            r.spec_value() == 0,
            r.spec_time_base() == INTERNAL_TIME_BASE,
    {
        Timestamp { value: 0, time_base: INTERNAL_TIME_BASE }
    }

    /// The time in milliseconds, as `millis_of` says.
    pub fn as_millis(&self) -> (r: Option<u64>)
        ensures
            r == millis_of(self.spec_value(), self.spec_time_base().0, self.spec_time_base().1),
    {
        let v = self.value as i128;
        let num = self.time_base.0 as i128;
        proof {
            let a: int = 0x8000_0000_0000_0000;
            let b: int = 0x8000_0000;
            assert(-(a * b) <= v * num <= a * b) by (nonlinear_arith)
                requires
                    -a <= v <= a,
                    -b <= num <= b,
            {
            }
            assert(a * b == 0x4000_0000_0000_0000_0000_0000);
        }
        let n: i128 = v * num * 1000;
        let den = self.time_base.1;
        if den <= 0 || n < 0 {
            return None;
        }
        let q: i128 = n / (den as i128);
        if q > u64::MAX as i128 {
            None
        } else {
            Some(q as u64)
        }
    }
}

/// A frame of decoded audio: its bytes, shared between holders, its duration
/// and its presentation time.
pub struct Frame {
    data: Arc<Vec<u8>>,
    duration: Timestamp,
    pts: Timestamp,
}

impl Frame {
    pub closed spec fn spec_data(&self) -> Seq<u8> {
        self.data@
    }

    pub closed spec fn spec_duration(&self) -> Timestamp {
        self.duration
    }

    pub closed spec fn spec_pts(&self) -> Timestamp {
        self.pts
    }

    pub fn new(pts: Timestamp, duration: Timestamp, data: Vec<u8>) -> (r: Frame)
        ensures
            r.spec_pts() == pts,
            r.spec_duration() == duration,
            r.spec_data() == data@,
    {
        Frame { pts, duration, data: Arc::new(data) }
    }

    pub fn data(&self) -> (r: &Arc<Vec<u8>>)
        ensures
            r@ == self.spec_data(),
    {
        &self.data
    }

    pub fn duration(&self) -> (r: &Timestamp)
        ensures
            *r == self.spec_duration(),
    {
        &self.duration
    }

    pub fn pts(&self) -> (r: &Timestamp)
        ensures
            *r == self.spec_pts(),
    {
        &self.pts
    }

    pub fn set_pts(&mut self, pts: Timestamp)
        ensures
            final(self).spec_pts() == pts,
            final(self).spec_duration() == old(self).spec_duration(),
            final(self).spec_data() == old(self).spec_data(),
    {
        self.pts = pts;
    }

    /// The presentation time in milliseconds, as `millis_of` says.
    pub fn pts_as_duration(&self) -> (r: Option<u64>)
        ensures
            r == millis_of(self.spec_pts().spec_value(), self.spec_pts().spec_time_base().0, self.spec_pts().spec_time_base().1),
    {
        self.pts.as_millis()
    }

    pub fn is_empty(&self) -> (r: bool)
        ensures
            r == (self.spec_data().len() == 0),
    {
        self.data.len() == 0
    }
}

} // verus!
