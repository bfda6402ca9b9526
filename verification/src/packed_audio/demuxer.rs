//! The demuxer of a packed AAC segment. The segment's ID3 timestamp anchors its
//! first sample; the frames' sample counts carry the clock on from there.

use vstd::prelude::*;
use crate::bytes::ByteReader;
use crate::fault::Fault;
use crate::packed_audio::adts::{read_frame, AdtsConfig};
use crate::packed_audio::id3;
use crate::packed_audio::timeline::Timeline;
use crate::seconds::Seconds;

verus! {

/// Ticks per second of the transport clock.
pub const CLOCK_HZ: u32 = 90000;

/// One AAC frame with its time. All frames are independently decodable.
#[derive(Debug)]
pub struct AacPacket {
    /// The ADTS frame as it stands in the segment.
    pub data: Vec<u8>,
    pub pts: i64,
    pub dts: i64,
    pub duration: i64,
    pub keyframe: bool,
}

/// What a packet says.
#[verifier::ext_equal]
pub struct PacketModel {
    pub data: Seq<u8>,
    pub pts: i64,
    pub dts: i64,
    pub duration: i64,
    pub keyframe: bool,
}

impl View for AacPacket {
    type V = PacketModel;

    open spec fn view(&self) -> PacketModel {
        PacketModel {
            data: self.data@,
            pts: self.pts,
            dts: self.dts,
            duration: self.duration,
            keyframe: self.keyframe,
        }
    }
}

/// The bytes `ID3`, which open a tag.
pub open spec fn id3_mark() -> Seq<u8> {
    seq![0x49u8, 0x44, 0x33]
}

/// The outcome of reading up to the next frame and over it.
pub struct UnitRead {
    /// Where the frame starts.
    pub start: int,
    /// Where reading stopped.
    pub end: int,
    /// The ID3 bytes that the scan has used up.
    pub consumed: int,
    /// The frame's configuration and sample count, or nothing at a clean end.
    pub out: Result<Option<(AdtsConfig, u64)>, Fault>,
}

/// Reads the next frame at or behind `pos`, over the tags that precede it.
pub open spec fn unit_at(s: Seq<u8>, pos: int, consumed: int) -> UnitRead
    decreases s.len() - pos,
    when 0 <= pos
{
    proof {
        if pos + 3 <= s.len() {
            id3::lemma_tag_bounds(s, pos + 3, consumed);
        }
    }
    if pos >= s.len() {
        UnitRead { start: pos, end: pos, consumed, out: Ok(None) }
    } else if s.len() < pos + 3 {
        UnitRead { start: pos, end: s.len() as int, consumed, out: Err(Fault::Truncated) }
    } else if s.subrange(pos, pos + 3) == id3_mark() {
        let tag = id3::tag_at(s, pos + 3, consumed);
        match tag.out {
            Err(f) => UnitRead { start: pos, end: tag.end, consumed: tag.consumed, out: Err(f) },
            Ok(_) => unit_at(s, tag.end, tag.consumed),
        }
    } else {
        let frame = crate::packed_audio::adts::frame_at(s, pos);
        UnitRead {
            start: pos,
            end: frame.end,
            consumed,
            out: match frame.out {
                Err(f) => Err(f),
                Ok(unit) => Ok(Some(unit)),
            },
        }
    }
}

/// What the head of a segment establishes.
pub struct Head {
    /// Where the first frame starts.
    pub audio_start: int,
    pub config: AdtsConfig,
    pub timestamp: Option<i64>,
    /// The ID3 bytes that the scan has used up.
    pub consumed: int,
}

/// Reads the head of a segment from `pos` on, up to and over the first frame;
/// `seen` is the timestamp found before. All timestamps must agree.
pub open spec fn head_at(s: Seq<u8>, pos: int, consumed: int, seen: Option<i64>) -> Result<
    Head,
    Fault,
>
    decreases s.len() - pos,
    when 0 <= pos
{
    proof {
        if pos + 3 <= s.len() {
            id3::lemma_tag_bounds(s, pos + 3, consumed);
        }
    }
    if pos >= s.len() {
        Err(Fault::NoAudio)
    } else if s.len() < pos + 3 {
        Err(Fault::Truncated)
    } else if s.subrange(pos, pos + 3) == id3_mark() {
        let tag = id3::tag_at(s, pos + 3, consumed);
        match tag.out {
            Err(f) => Err(f),
            Ok(None) => head_at(s, tag.end, tag.consumed, seen),
            Ok(Some(t)) => if seen is Some && seen != Some(t) {
                Err(Fault::ConflictingSegmentTimestamps)
            } else {
                head_at(s, tag.end, tag.consumed, Some(t))
            },
        }
    } else {
        match crate::packed_audio::adts::frame_at(s, pos).out {
            Err(f) => Err(f),
            Ok(unit) => Ok(
                Head { audio_start: pos, config: unit.0, timestamp: seen, consumed },
            ),
        }
    }
}

/// The state of a demuxer.
#[verifier::ext_equal]
pub struct AacModel {
    pub data: Seq<u8>,
    pub audio_start: int,
    pub config: AdtsConfig,
    pub base_pts: i64,
    /// Where the next read starts.
    pub pos: int,
    /// Samples that precede the next frame.
    pub samples: u64,
    /// The ID3 bytes that the scan has used up.
    pub consumed: int,
}

impl AacModel {
    /// The position lies in the segment, and a frame of the configuration stands
    /// at the start of the audio.
    pub open spec fn valid(self) -> bool {
        &&& 0 <= self.pos <= self.data.len()
        &&& 0 <= self.audio_start
        &&& self.audio_start + 3 <= self.data.len()
        &&& self.data.subrange(self.audio_start, self.audio_start + 3) != id3_mark()
        &&& crate::packed_audio::adts::frame_at(self.data, self.audio_start).out matches Ok(unit)
        &&& unit.0 == self.config
        &&& self.config.sample_rate > 0
    }

    /// The time of a sample: the anchor plus the samples before it, scaled to
    /// the clock in one division, so no rounding adds up over the frames.
    pub open spec fn time(self, samples: int) -> int {
        self.base_pts + samples * CLOCK_HZ / (self.config.sample_rate as int)
    }

    /// The time of a sample, where it fits the range of timestamps.
    pub open spec fn pts(self, samples: int) -> Result<i64, Fault> {
        if self.time(samples) <= i64::MAX {
            Ok(self.time(samples) as i64)
        } else {
            Err(Fault::TimestampOverflow)
        }
    }

    /// The state and the packet after reading the next packet.
    pub open spec fn next(self) -> (AacModel, Result<PacketModel, Fault>) {
        let unit = unit_at(self.data, self.pos, self.consumed);
        let read = AacModel { pos: unit.end, consumed: unit.consumed, ..self };
        match unit.out {
            Err(f) => (read, Err(f)),
            Ok(None) => (read, Err(Fault::Eof)),
            Ok(Some((config, count))) => if config != self.config {
                (read, Err(Fault::ConfigChangedWithinSegment))
            } else {
                match self.pts(self.samples as int) {
                    Err(f) => (read, Err(f)),
                    Ok(pts) => if self.samples + count > u64::MAX {
                        (read, Err(Fault::SampleCountOverflow))
                    } else {
                        let after = AacModel { samples: (self.samples + count) as u64, ..read };
                        match self.pts(self.samples + count) {
                            Err(f) => (after, Err(f)),
                            Ok(end) => (
                                after,
                                Ok(
                                    PacketModel {
                                        data: self.data.subrange(unit.start, unit.end),
                                        pts,
                                        dts: pts,
                                        duration: (end - pts) as i64,
                                        keyframe: true,
                                    },
                                ),
                            ),
                        }
                    },
                }
            },
        }
    }

    /// The state at the first frame.
    pub open spec fn rewound(self) -> AacModel {
        AacModel { pos: self.audio_start, samples: 0, consumed: 0, ..self }
    }

    /// The state at a landing.
    pub open spec fn landed(self, landing: Landing) -> AacModel {
        AacModel { pos: landing.pos, samples: landing.samples, consumed: 0, ..self }
    }

    /// Where a scan for `target` lands that has come to this state, `landing`
    /// being the last frame at or before the target so far. The state is the one
    /// that the scan ends in.
    pub open spec fn scan(self, target: i64, landing: Landing) -> (AacModel, Result<Landing, Fault>)
        decreases self.data.len() - self.pos,
        when 0 <= self.pos <= self.data.len()
        via Self::scan_decreases
    {
        let (after, packet) = self.next();
        match packet {
            Err(f) => if f == Fault::Eof {
                (after, Ok(landing))
            } else {
                (after, Err(f))
            },
            Ok(p) => if p.pts > target {
                (after, Ok(landing))
            } else {
                let here = Landing { pos: self.pos, samples: self.samples, pts: p.pts };
                if p.pts == target {
                    (after, Ok(here))
                } else {
                    after.scan(target, here)
                }
            },
        }
    }

    #[via_fn]
    proof fn scan_decreases(self, target: i64, landing: Landing) {
        lemma_unit_advances(self.data, self.pos, self.consumed);
    }

    /// The state and the landing after seeking to `target`.
    pub open spec fn seek(self, stream_index: u32, target: i64) -> (AacModel, Result<i64, Fault>) {
        if stream_index != 0 {
            (self, Err(Fault::NoSuchAudioStream))
        } else {
            let first = Landing { pos: self.audio_start, samples: 0, pts: self.base_pts };
            let (after, found) = self.rewound().scan(target, first);
            match found {
                Err(f) => (after, Err(f)),
                Ok(landing) => (after.landed(landing), Ok(landing.pts)),
            }
        }
    }
}

/// A frame that a seek may land on.
pub struct Landing {
    pub pos: int,
    pub samples: u64,
    pub pts: i64,
}

/// A frame that was read ends behind the position from which it was sought, and
/// within the segment.
pub proof fn lemma_unit_advances(s: Seq<u8>, pos: int, consumed: int)
    requires
        0 <= pos <= s.len(),
    ensures
        ({
            let unit = unit_at(s, pos, consumed);
            &&& pos <= unit.end <= s.len()
            &&& unit.out matches Ok(Some(_)) ==> pos <= unit.start && unit.start + 7 < unit.end
        }),
    decreases s.len() - pos,
{
    if pos + 3 <= s.len() {
        id3::lemma_tag_bounds(s, pos + 3, consumed);
        crate::packed_audio::adts::lemma_frame_bounds(s, pos);
    }
    if pos + 3 <= s.len() && s.subrange(pos, pos + 3) == id3_mark() {
        let tag = id3::tag_at(s, pos + 3, consumed);
        if tag.out is Ok {
            lemma_unit_advances(s, tag.end, tag.consumed);
        }
    }
}

/// A span of samples covers a bounded number of ticks, and at least nine tenths
/// of its samples less one where the rate is at most 96 kHz.
pub proof fn lemma_span(samples: int, count: int, rate: int)
    requires
        samples >= 0,
        0 <= count <= 4096,
        rate >= 1,
    ensures
        0 <= (samples + count) * CLOCK_HZ / rate - samples * CLOCK_HZ / rate <= 4096 * 90000 + 1,
        rate <= 96000 && count >= 1024 ==> (samples + count) * CLOCK_HZ / rate - samples * CLOCK_HZ
            / rate >= 960,
{
    let a = samples * CLOCK_HZ;
    let b = count * CLOCK_HZ;
    assert((samples + count) * CLOCK_HZ == a + b) by (nonlinear_arith)
        requires
            a == samples * CLOCK_HZ,
            b == count * CLOCK_HZ,
    ;
    vstd::arithmetic::div_mod::lemma_fundamental_div_mod(a, rate);
    vstd::arithmetic::div_mod::lemma_fundamental_div_mod(a + b, rate);
    vstd::arithmetic::div_mod::lemma_mod_bound(a, rate);
    vstd::arithmetic::div_mod::lemma_mod_bound(a + b, rate);
    let qa = a / rate;
    let qb = (a + b) / rate;
    assert(rate * (qb - qa) == rate * qb - rate * qa) by (nonlinear_arith);
    assert(-rate < rate * (qb - qa) - b < rate);
    assert(qb - qa >= 0) by (nonlinear_arith)
        requires
            rate * (qb - qa) > b - rate,
            b >= 0,
            rate >= 1,
    ;
    assert(qb - qa <= 4096 * 90000 + 1) by (nonlinear_arith)
        requires
            rate * (qb - qa) < b + rate,
            b <= 4096 * 90000,
            rate >= 1,
    ;
    if rate <= 96000 && count >= 1024 {
        assert(qb - qa >= 960) by (nonlinear_arith)
            requires
                rate * (qb - qa) > b - rate,
                b >= 1024 * 90000,
                1 <= rate <= 96000,
        ;
    }
}

/// The audio starts within the segment, at a frame.
pub proof fn lemma_head(s: Seq<u8>, pos: int, consumed: int, seen: Option<i64>)
    requires
        0 <= pos <= s.len(),
    ensures
        head_at(s, pos, consumed, seen) matches Ok(head) ==> {
            &&& pos <= head.audio_start
            &&& head.audio_start + 3 <= s.len()
            &&& s.subrange(head.audio_start, head.audio_start + 3) != id3_mark()
            &&& crate::packed_audio::adts::frame_at(s, head.audio_start).out matches Ok(unit)
            &&& unit.0 == head.config
            &&& head.config.sample_rate > 0
        },
    decreases s.len() - pos,
{
    if pos + 3 <= s.len() {
        id3::lemma_tag_bounds(s, pos + 3, consumed);
        crate::packed_audio::adts::lemma_frame_bounds(s, pos);
    }
    if pos + 3 <= s.len() && s.subrange(pos, pos + 3) == id3_mark() {
        let tag = id3::tag_at(s, pos + 3, consumed);
        match tag.out {
            Err(_) => {},
            Ok(None) => {
                lemma_head(s, tag.end, tag.consumed, seen);
            },
            Ok(Some(t)) => {
                lemma_head(s, tag.end, tag.consumed, Some(t));
            },
        }
    }
}

/// Reads three bytes, telling a clean end from one inside a frame or a tag.
fn prefix(input: &mut ByteReader) -> (r: Result<Option<Vec<u8>>, Fault>)
    requires
        old(input).wf(),
    ensures
        final(input).wf(),
        final(input).bytes == old(input).bytes,
        ({
            let s = old(input).bytes@;
            let pos = old(input).pos;
            if pos == s.len() {
                r == Ok::<Option<Vec<u8>>, Fault>(None) && final(input).pos == pos
            } else if s.len() < pos + 3 {
                r == Err::<Option<Vec<u8>>, Fault>(Fault::Truncated) && final(input).pos == s.len()
            } else {
                &&& r matches Ok(Some(p))
                &&& p@ == s.subrange(pos as int, pos + 3)
                &&& final(input).pos == pos + 3
            }
        }),
{
    if input.pos == input.bytes.len() {
        return Ok(None);
    }
    let p: Vec<u8> = input.read_exact(3)?;
    Ok(Some(p))
}

/// Whether three bytes are `ID3`.
fn is_id3(p: &Vec<u8>) -> (r: bool)
    requires
        p@.len() == 3,
    ensures
        r == (p@ == id3_mark()),
{
    let r: bool = p[0] == 0x49 && p[1] == 0x44 && p[2] == 0x33;
    proof {
        if r {
            assert(p@ =~= id3_mark());
        } else if p@ == id3_mark() {
            assert(p@[0] == 0x49 && p@[1] == 0x44 && p@[2] == 0x33);
        }
    }
    r
}

/// A packed AAC segment that is being read.
#[derive(Debug)]
pub struct PackedAac {
    input: ByteReader,
    audio_start: usize,
    config: AdtsConfig,
    base_pts: i64,
    samples: u64,
    consumed: usize,
}

impl View for PackedAac {
    type V = AacModel;

    closed spec fn view(&self) -> AacModel {
        AacModel {
            data: self.input.bytes@,
            audio_start: self.audio_start as int,
            config: self.config,
            base_pts: self.base_pts,
            pos: self.input.pos as int,
            samples: self.samples,
            consumed: self.consumed as int,
        }
    }
}

/// What opening a segment comes to, given the state of the clock.
pub open spec fn opened(
    data: Seq<u8>,
    timeline: Timeline,
    elapsed_ticks: int,
) -> Result<AacModel, Fault> {
    match head_at(data, 0, 0, None) {
        Err(f) => Err(f),
        Ok(head) => match head.timestamp {
            None => Err(Fault::MissingTimestamp),
            Some(raw) => match timeline.time_of(raw, elapsed_ticks, head.config) {
                Err(f) => Err(f),
                Ok(base_pts) => Ok(
                    AacModel {
                        data,
                        audio_start: head.audio_start,
                        config: head.config,
                        base_pts,
                        pos: head.audio_start,
                        samples: 0,
                        consumed: head.consumed,
                    },
                ),
            },
        },
    }
}

/// The clock after a segment was opened: it is anchored by the first segment
/// whose head could be read.
pub open spec fn anchored_by(data: Seq<u8>, timeline: Timeline, start: Seconds) -> Timeline {
    match head_at(data, 0, 0, None) {
        Ok(head) => match head.timestamp {
            Some(raw) => Timeline { anchor: Some(timeline.anchored(raw, start, head.config)) },
            None => timeline,
        },
        Err(_) => timeline,
    }
}

/// The head of a segment, as far as opening needs it.
struct SegmentHead {
    audio_start: usize,
    config: AdtsConfig,
    timestamp: Option<i64>,
    consumed: usize,
}

/// Reads the tags at the start of a segment and the first frame behind them.
fn read_head(input: &mut ByteReader) -> (r: Result<SegmentHead, Fault>)
    requires
        old(input).wf(),
        old(input).pos == 0,
    ensures
        final(input).wf(),
        final(input).bytes == old(input).bytes,
        match head_at(old(input).bytes@, 0, 0, None) {
            Ok(head) => {
                &&& r matches Ok(found)
                &&& found.audio_start == head.audio_start
                &&& found.config == head.config
                &&& found.timestamp == head.timestamp
                &&& found.consumed == head.consumed
            },
            Err(f) => r == Err::<SegmentHead, Fault>(f),
        },
{
    let mut timestamp: Option<i64> = None;
    let mut consumed: usize = 0;
    loop
        invariant
            input.wf(),
            input.bytes == old(input).bytes,
            head_at(input.bytes@, 0, 0, None) == head_at(
                input.bytes@,
                input.pos as int,
                consumed as int,
                timestamp,
            ),
        decreases input.bytes@.len() - input.pos,
    {
        let audio_start: usize = input.pos;
        let p = match prefix(input) {
            Ok(Some(p)) => p,
            Ok(None) => {
                return Err(Fault::NoAudio);
            },
            Err(f) => {
                return Err(f);
            },
        };
        if is_id3(&p) {
            proof {
                id3::lemma_tag_bounds(input.bytes@, audio_start + 3, consumed as int);
            }
            match id3::read(input, &mut consumed) {
                Err(f) => {
                    return Err(f);
                },
                Ok(None) => {},
                Ok(Some(pts)) => {
                    if let Some(previous) = timestamp {
                        if previous != pts {
                            return Err(Fault::ConflictingSegmentTimestamps);
                        }
                    }
                    timestamp = Some(pts);
                },
            }
        } else {
            let config = match read_frame(input, &p) {
                Ok(frame) => frame.config,
                Err(f) => {
                    return Err(f);
                },
            };
            return Ok(SegmentHead { audio_start, config, timestamp, consumed });
        }
    }
}

/// Opens a packed AAC segment that stands at `start` on the media timeline,
/// `elapsed_ticks` ticks of the clock behind the segment that anchors it.
pub fn open(
    bytes: Vec<u8>,
    timeline: &mut Timeline,
    start: Seconds,
    elapsed_ticks: i128,
) -> (r: Result<PackedAac, Fault>)
    ensures
        *final(timeline) == anchored_by(bytes@, *old(timeline), start),
        match opened(bytes@, *old(timeline), elapsed_ticks as int) {
            Ok(model) => r matches Ok(demuxer) && demuxer@ == model && demuxer@.valid(),
            Err(f) => r == Err::<PackedAac, Fault>(f),
        },
{
    proof {
        lemma_head(bytes@, 0, 0, None);
    }
    let mut input = ByteReader::new(bytes);
    let head = match read_head(&mut input) {
        Ok(head) => head,
        Err(f) => {
            return Err(f);
        },
    };
    let raw: i64 = match head.timestamp {
        Some(raw) => raw,
        None => {
            return Err(Fault::MissingTimestamp);
        },
    };
    let base_pts: i64 = match timeline.unwrap(raw, start, elapsed_ticks, head.config) {
        Ok(base_pts) => base_pts,
        Err(f) => {
            return Err(f);
        },
    };
    input.pos = head.audio_start;
    Ok(
        PackedAac {
            input,
            audio_start: head.audio_start,
            config: head.config,
            base_pts,
            samples: 0,
            consumed: head.consumed,
        },
    )
}

/// The channel count of a configuration. Configuration zero leaves it to the
/// decoder.
pub open spec fn channel_count(config: AdtsConfig) -> Option<u16> {
    match config.channels {
        0 => None,
        7 => Some(8u16),
        n => Some(n as u16),
    }
}

impl PackedAac {
    /// The configuration of the stream.
    pub fn config(&self) -> (r: AdtsConfig)
        ensures
            r == self@.config,
    {
        self.config
    }

    /// The time of the segment's first sample.
    pub fn start_time(&self) -> (r: i64)
        ensures
            r == self@.base_pts,
    {
        self.base_pts
    }

    /// The channel count. Configuration zero leaves it to the decoder.
    pub fn channels(&self) -> (r: Option<u16>)
        ensures
            r == (match self@.config.channels {
                0 => None,
                7 => Some(8u16),
                n => Some(n as u16),
            }),
            r == channel_count(self@.config),
    {
        match self.config.channels {
            0 => None,
            7 => Some(8),
            n => Some(n as u16),
        }
    }

    /// The time of a sample.
    fn pts(&self, samples: u64) -> (r: Result<i64, Fault>)
        requires
            self@.config.sample_rate > 0,
        ensures
            r == self@.pts(samples as int),
    {
        let ghost n = samples * CLOCK_HZ;
        let ghost d = self.config.sample_rate as int;
        assert(0 <= n <= u64::MAX * 90000) by (nonlinear_arith)
            requires
                n == samples * CLOCK_HZ,
                CLOCK_HZ == 90000,
                0 <= samples <= u64::MAX,
        ;
        assert(n / d <= n) by (nonlinear_arith)
            requires
                n >= 0,
                d >= 1,
        ;
        let scaled: u128 = samples as u128 * CLOCK_HZ as u128 / self.config.sample_rate as u128;
        assert(scaled == n / d);
        let time: i128 = self.base_pts as i128 + scaled as i128;
        if time > i64::MAX as i128 {
            return Err(Fault::TimestampOverflow);
        }
        Ok(time as i64)
    }

    /// Reads the next AAC frame. Tags between the frames are passed over: the
    /// segment's first timestamp stays the anchor, and the sample counts of the
    /// frames advance it.
    pub fn next_packet(&mut self) -> (r: Result<AacPacket, Fault>)
        requires
            old(self)@.valid(),
        ensures
            final(self)@.valid(),
            final(self)@ == old(self)@.next().0,
            match old(self)@.next().1 {
                Ok(packet) => r matches Ok(p) && p@ == packet,
                Err(f) => r == Err::<AacPacket, Fault>(f),
            },
    {
        proof {
            lemma_unit_advances(self@.data, self@.pos, self@.consumed);
        }
        loop
            invariant
                self.input.wf(),
                self.input.bytes == old(self).input.bytes,
                self.audio_start == old(self).audio_start,
                self.config == old(self).config,
                self.base_pts == old(self).base_pts,
                self.samples == old(self).samples,
                self@.valid(),
                unit_at(old(self)@.data, old(self)@.pos, old(self)@.consumed) == unit_at(
                    self@.data,
                    self@.pos,
                    self@.consumed,
                ),
            decreases self.input.bytes@.len() - self.input.pos,
        {
            let ghost at = self@.pos;
            let ghost data = self@.data;
            let p = match prefix(&mut self.input) {
                Ok(Some(p)) => p,
                Ok(None) => {
                    return Err(Fault::Eof);
                },
                Err(f) => {
                    return Err(f);
                },
            };
            proof {
                id3::lemma_tag_bounds(data, at + 3, self@.consumed);
                crate::packed_audio::adts::lemma_frame_bounds(data, at);
            }
            if is_id3(&p) {
                match id3::read(&mut self.input, &mut self.consumed) {
                    Ok(_) => {},
                    Err(f) => {
                        return Err(f);
                    },
                }
                continue;
            }
            let frame = match read_frame(&mut self.input, &p) {
                Ok(frame) => frame,
                Err(f) => {
                    return Err(f);
                },
            };
            if frame.config != self.config {
                return Err(Fault::ConfigChangedWithinSegment);
            }
            let pts: i64 = match self.pts(self.samples) {
                Ok(pts) => pts,
                Err(f) => {
                    return Err(f);
                },
            };
            let before: u64 = self.samples;
            self.samples = match self.samples.checked_add(frame.samples) {
                Some(samples) => samples,
                None => {
                    return Err(Fault::SampleCountOverflow);
                },
            };
            let end: i64 = match self.pts(self.samples) {
                Ok(end) => end,
                Err(f) => {
                    return Err(f);
                },
            };
            proof {
                lemma_span(before as int, frame.samples as int, self.config.sample_rate as int);
            }
            return Ok(
                AacPacket { data: frame.bytes, pts, dts: pts, duration: end - pts, keyframe: true },
            );
        }
    }

    /// Seeks to the last frame at or before `target`, or to the first frame where
    /// there is none.
    pub fn seek_to(&mut self, stream_index: u32, target: i64) -> (r: Result<i64, Fault>)
        requires
            old(self)@.valid(),
        ensures
            final(self)@.valid(),
            final(self)@ == old(self)@.seek(stream_index, target).0,
            r == old(self)@.seek(stream_index, target).1,
    {
        if stream_index != 0 {
            return Err(Fault::NoSuchAudioStream);
        }
        self.input.pos = self.audio_start;
        self.samples = 0;
        self.consumed = 0;
        let mut landing_pos: usize = self.audio_start;
        let mut landing_samples: u64 = 0;
        let mut landing_pts: i64 = self.base_pts;
        let ghost first = Landing {
            pos: self.audio_start as int,
            samples: 0,
            pts: self.base_pts,
        };
        let ghost whole = self@.scan(target, first);
        let mut scanning: bool = true;
        while scanning
            invariant
                self@.valid(),
                self@.data == old(self)@.data,
                self@.audio_start == old(self)@.audio_start,
                self@.config == old(self)@.config,
                self@.base_pts == old(self)@.base_pts,
                stream_index == 0,
                landing_pos <= self@.data.len(),
                first == (Landing {
                    pos: old(self)@.audio_start,
                    samples: 0,
                    pts: old(self)@.base_pts,
                }),
                whole == old(self)@.rewound().scan(target, first),
                ({
                    let landing = Landing {
                        pos: landing_pos as int,
                        samples: landing_samples,
                        pts: landing_pts,
                    };
                    if scanning {
                        whole == self@.scan(target, landing)
                    } else {
                        whole == (self@, Ok::<Landing, Fault>(landing))
                    }
                }),
            decreases self@.data.len() - self@.pos, scanning as int,
        {
            proof {
                lemma_unit_advances(self@.data, self@.pos, self@.consumed);
            }
            let position: usize = self.input.pos;
            let samples: u64 = self.samples;
            match self.next_packet() {
                Ok(packet) => {
                    if packet.pts > target {
                        scanning = false;
                    } else {
                        landing_pos = position;
                        landing_samples = samples;
                        landing_pts = packet.pts;
                        if packet.pts == target {
                            scanning = false;
                        }
                    }
                },
                Err(Fault::Eof) => {
                    scanning = false;
                },
                Err(f) => {
                    return Err(f);
                },
            }
        }
        self.input.pos = landing_pos;
        self.samples = landing_samples;
        self.consumed = 0;
        Ok(landing_pts)
    }
}

} // verus!
