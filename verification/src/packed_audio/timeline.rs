//! The 33-bit transport clock, unwrapped by playlist position.

use vstd::prelude::*;
use crate::fault::Fault;
use crate::packed_audio::adts::AdtsConfig;
use crate::packed_audio::id3::WRAP;
use crate::seconds::Seconds;

verus! {

/// The first packed audio segment that was opened.
#[derive(Clone, Copy, Debug, PartialEq, Eq, Structural)]
pub struct Anchor {
    /// Its transport timestamp.
    pub origin: i64,
    /// Its position on the media timeline.
    pub start: Seconds,
    /// Its ADTS configuration, which the whole stream keeps.
    pub config: AdtsConfig,
}

/// The clock of a packed audio stream. It is anchored once, so opening a segment
/// again, or out of order, gives the same times.
#[derive(Clone, Copy, Debug, PartialEq, Eq, Structural)]
pub struct Timeline {
    pub anchor: Option<Anchor>,
}

/// The time that is congruent to `raw` on the 33-bit clock and nearest to
/// `expected`; of two that are equally near, the later one.
pub open spec fn nearest(expected: int, raw: int) -> int {
    raw + ((expected - raw + WRAP / 2) / (WRAP as int)) * WRAP
}

/// The nearest time, where it fits the range of timestamps.
pub open spec fn unwrapped(expected: int, raw: int) -> Result<i64, Fault> {
    if i64::MIN <= nearest(expected, raw) <= i64::MAX {
        Ok(nearest(expected, raw) as i64)
    } else {
        Err(Fault::TimestampOverflow)
    }
}

/// How far `nearest` can be from the expected time.
pub proof fn lemma_nearest_bounds(expected: int, raw: int)
    ensures
        -(WRAP / 2) <= expected - nearest(expected, raw) < WRAP / 2,
        (nearest(expected, raw) - raw) % (WRAP as int) == 0,
{
    let x = expected - raw + WRAP / 2;
    let turns = x / (WRAP as int);
    vstd::arithmetic::div_mod::lemma_fundamental_div_mod(x, WRAP as int);
    vstd::arithmetic::div_mod::lemma_mod_bound(x, WRAP as int);
    assert(WRAP * turns == turns * WRAP) by (nonlinear_arith);
    vstd::arithmetic::div_mod::lemma_mod_multiples_basic(turns, WRAP as int);
}

impl Timeline {
    /// A clock without an anchor.
    pub fn new() -> (r: Timeline)
        ensures
            r.anchor is None,
    {
        Timeline { anchor: None }
    }

    /// The anchor that the clock has once a segment was offered to it.
    pub open spec fn anchored(self, raw: i64, start: Seconds, config: AdtsConfig) -> Anchor {
        match self.anchor {
            Some(anchor) => anchor,
            None => Anchor { origin: raw, start, config },
        }
    }

    /// The unwrapped time of a segment, `elapsed_ticks` being the 90 kHz ticks
    /// from the anchor's position to the segment's.
    pub open spec fn time_of(
        self,
        raw: i64,
        elapsed_ticks: int,
        config: AdtsConfig,
    ) -> Result<i64, Fault> {
        match self.anchor {
            None => Ok(raw),
            Some(anchor) => if anchor.config != config {
                Err(Fault::ConfigChangedBetweenSegments)
            } else {
                unwrapped(anchor.origin + elapsed_ticks, raw as int)
            },
        }
    }

    /// Where the anchor stands on the media timeline.
    pub fn first_start(&self) -> (r: Option<Seconds>)
        ensures
            match self.anchor {
                Some(anchor) => r == Some(anchor.start),
                None => r is None,
            },
    {
        match self.anchor {
            Some(anchor) => Some(anchor.start),
            None => None,
        }
    }

    /// Unwraps the transport timestamp `raw` of the segment at `start`. The first
    /// segment becomes the anchor, and its timestamp stands as it is.
    pub fn unwrap(
        &mut self,
        raw: i64,
        start: Seconds,
        elapsed_ticks: i128,
        config: AdtsConfig,
    ) -> (r: Result<i64, Fault>)
        ensures
            final(self).anchor == Some(old(self).anchored(raw, start, config)),
            r == old(self).time_of(raw, elapsed_ticks as int, config),
    {
        let anchor = match self.anchor {
            Some(anchor) => anchor,
            None => {
                self.anchor = Some(Anchor { origin: raw, start, config });
                return Ok(raw);
            },
        };
        if anchor.config != config {
            return Err(Fault::ConfigChangedBetweenSegments);
        }
        proof {
            lemma_nearest_bounds(anchor.origin + elapsed_ticks, raw as int);
        }
        let far: i128 = 0x4000_0000_0000_0000_0000_0000;
        if elapsed_ticks > far || elapsed_ticks < -far {
            return Err(Fault::TimestampOverflow);
        }
        let expected: i128 = anchor.origin as i128 + elapsed_ticks;
        let offset: i128 = expected - raw as i128 + (WRAP / 2) as i128;
        let turns: i128 = match offset.checked_div_euclid(WRAP as i128) {
            Some(turns) => turns,
            None => {
                return Err(Fault::TimestampOverflow);
            },
        };
        assert(turns == offset as int / WRAP as int);
        assert(-0x8000_0000_0000_0000_0000_0000 < turns * WRAP < 0x8000_0000_0000_0000_0000_0000);
        let time: i128 = raw as i128 + turns * WRAP as i128;
        if time < i64::MIN as i128 || time > i64::MAX as i128 {
            return Err(Fault::TimestampOverflow);
        }
        Ok(time as i64)
    }
}

} // verus!
