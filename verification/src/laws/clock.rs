//! The clock of packed audio: where segments stand on it, and the times of their
//! packets.

use vstd::prelude::*;
use crate::fault::Fault;
use crate::packed_audio::adts::AdtsConfig;
use crate::packed_audio::demuxer::{AacModel, AacPacket, Landing, PacketModel};
use crate::packed_audio::timeline::{Anchor, Timeline};
use crate::seconds::Seconds;

verus! {

/// Packets say what their fields say.
pub proof fn law_packets_say_their_fields(p: AacPacket)
    ensures
        p@.data == p.data@,
        p@.pts == p.pts,
        p@.dts == p.dts,
        p@.duration == p.duration,
        p@.keyframe == p.keyframe,
{
}

/// The first segment has its own timestamp, and becomes the anchor.
pub proof fn law_first_segments_anchor(
    clock: Timeline,
    raw: i64,
    start: Seconds,
    elapsed: int,
    config: AdtsConfig,
)
    requires
        clock.anchor is None,
    ensures
        clock.time_of(raw, elapsed, config) == Ok::<i64, Fault>(raw),
        clock.anchored(raw, start, config).origin == raw,
        clock.anchored(raw, start, config).start == start,
        clock.anchored(raw, start, config).config == config,
{
}

/// A later segment has the one time that is congruent to its timestamp by the
/// 33-bit clock and lies less than half a turn behind the expected time, or at
/// most half a turn after it. A time that does not fit is refused, and the anchor
/// stays.
pub proof fn law_later_segments_stand_near_their_position(
    clock: Timeline,
    anchor: Anchor,
    raw: i64,
    start: Seconds,
    elapsed: int,
    config: AdtsConfig,
    time: int,
)
    requires
        clock.anchor == Some(anchor),
        anchor.config == config,
        (time - raw) % 8589934592 == 0,
        -4294967296 <= anchor.origin + elapsed - time < 4294967296,
    ensures
        -9223372036854775808 <= time <= 9223372036854775807 ==> clock.time_of(raw, elapsed, config)
            == Ok::<i64, Fault>(time as i64),
        time < -9223372036854775808 || time > 9223372036854775807 ==> clock.time_of(
            raw,
            elapsed,
            config,
        ) == Err::<i64, Fault>(Fault::TimestampOverflow),
        clock.anchored(raw, start, config) == anchor,
{
    let found = crate::packed_audio::timeline::nearest(anchor.origin + elapsed, raw as int);
    crate::packed_audio::timeline::lemma_nearest_bounds(anchor.origin + elapsed, raw as int);
    assert((time - raw) - (found - raw) == time - found);
    assert(time == found) by {
        let a = (time - raw) / 8589934592;
        let b = (found - raw) / 8589934592;
        assert(time - raw == 8589934592 * a && found - raw == 8589934592 * b);
    }
}

/// A segment whose configuration differs in any field from the first segment's is
/// refused.
pub proof fn law_other_configurations_are_refused(
    clock: Timeline,
    anchor: Anchor,
    raw: i64,
    elapsed: int,
    config: AdtsConfig,
)
    requires
        clock.anchor == Some(anchor),
        anchor.config.mpeg2 != config.mpeg2 || anchor.config.profile != config.profile
            || anchor.config.sample_rate != config.sample_rate || anchor.config.channels
            != config.channels,
    ensures
        clock.time_of(raw, elapsed, config) == Err::<i64, Fault>(
            Fault::ConfigChangedBetweenSegments,
        ),
{
}

/// Whether a time, in ticks behind an anchor, is that of a number of samples at a
/// rate: the last tick at or before them.
pub open spec fn ticks_of(ticks: int, samples: int, rate: int) -> bool {
    ticks * rate <= samples * 90000 < (ticks + 1) * rate
}

/// Dividing finds the last tick at or before a number of samples.
proof fn lemma_ticks(samples: int, rate: int)
    requires
        samples >= 0,
        rate > 0,
    ensures
        ticks_of(samples * 90000 / rate, samples, rate),
{
    let n = samples * 90000;
    let q = n / rate;
    vstd::arithmetic::div_mod::lemma_fundamental_div_mod(n, rate);
    vstd::arithmetic::div_mod::lemma_mod_bound(n, rate);
    assert(q * rate == rate * q && (q + 1) * rate == rate * q + rate) by (nonlinear_arith);
}

/// Every packet that is delivered is a complete frame. It starts at the last tick
/// at or before the samples that precede it in the segment, and ends at the last
/// tick at or before those and its own, at the rate in its header.
pub proof fn law_packets_stand_at_their_samples(m: AacModel)
    requires
        m.valid(),
    ensures
        m.next().1 matches Ok(p) ==> {
            let rate = crate::laws::frames::hertz(crate::laws::frames::frequency(p.data, 0));
            let count = crate::laws::frames::sample_count(p.data, 0);
            &&& crate::laws::frames::complete(p.data, 0)
            &&& p.data.len() == crate::laws::frames::frame_size(p.data, 0)
            &&& (p.pts - m.base_pts) * rate <= m.samples * 90000 < (p.pts - m.base_pts + 1) * rate
            &&& (p.pts + p.duration - m.base_pts) * rate <= (m.samples + count) * 90000 < (p.pts
                + p.duration - m.base_pts + 1) * rate
            &&& m.next().0.samples == m.samples + count
            &&& p.dts == p.pts
            &&& p.keyframe
        },
{
    crate::packed_audio::laws::lemma_next(m);
    crate::packed_audio::laws::lemma_unit_is_frame(m.data, m.pos, m.consumed);
    crate::packed_audio::adts::lemma_frame_bounds(m.data, m.audio_start);
    if let Ok(p) = m.next().1 {
        let unit = crate::packed_audio::demuxer::unit_at(m.data, m.pos, m.consumed);
        crate::laws::frames::law_read_frames_are_complete(m.data, unit.start);
        crate::laws::frames::law_accepted_frames(m.data, unit.start);
        assert(forall|i: int| 0 <= i < p.data.len() ==> p.data[i] == m.data[unit.start + i]);
        let rate = m.config.sample_rate as int;
        lemma_ticks(m.samples as int, rate);
        lemma_ticks(m.next().0.samples as int, rate);
    }
}

/// The samples of the first packets of a segment, each by its header.
pub open spec fn samples_before(m: AacModel, n: nat) -> int
    decreases n,
{
    if n == 0 {
        0
    } else {
        let p = crate::packed_audio::laws::reads(m, (n - 1) as nat).next().1->Ok_0;
        samples_before(m, (n - 1) as nat) + crate::laws::frames::sample_count(p.data, 0)
    }
}

/// The samples add up over the packets, and the anchor stays.
proof fn lemma_samples_add_up(m: AacModel, n: nat)
    requires
        crate::packed_audio::laws::fresh(m),
        forall|i: nat| i < n ==> (#[trigger] crate::packed_audio::laws::reads(m, i)).next().1 is Ok,
    ensures
        crate::packed_audio::laws::reads(m, n).valid(),
        crate::packed_audio::laws::reads(m, n).samples == samples_before(m, n),
        crate::packed_audio::laws::reads(m, n).base_pts == m.base_pts,
    decreases n,
{
    if n > 0 {
        let j = (n - 1) as nat;
        lemma_samples_add_up(m, j);
        let at = crate::packed_audio::laws::reads(m, j);
        assert(at.next().1 is Ok);
        crate::packed_audio::laws::lemma_next(at);
        law_packets_stand_at_their_samples(at);
    }
}

/// In a segment as it was opened, the packet behind any number of packets stands
/// at the last tick at or before the samples of all of them, counted from the
/// segment's anchor at the rate in its own header.
pub proof fn law_packet_times_count_all_samples(
    data: Seq<u8>,
    clock: Timeline,
    elapsed: int,
    n: nat,
)
    requires
        crate::packed_audio::demuxer::opened(data, clock, elapsed) is Ok,
        forall|i: nat|
            i <= n ==> (#[trigger] crate::packed_audio::laws::reads(
                crate::packed_audio::demuxer::opened(data, clock, elapsed)->Ok_0,
                i,
            )).next().1 is Ok,
    ensures
        ({
            let m = crate::packed_audio::demuxer::opened(data, clock, elapsed)->Ok_0;
            let p = crate::packed_audio::laws::reads(m, n).next().1->Ok_0;
            let rate = crate::laws::frames::hertz(crate::laws::frames::frequency(p.data, 0));
            let count = crate::laws::frames::sample_count(p.data, 0);
            &&& ticks_of(p.pts - m.base_pts, samples_before(m, n), rate)
            &&& ticks_of(p.pts + p.duration - m.base_pts, samples_before(m, n) + count, rate)
        }),
{
    let m = crate::packed_audio::demuxer::opened(data, clock, elapsed)->Ok_0;
    crate::packed_audio::laws::law_opened_segments_are_fresh(data, clock, elapsed);
    lemma_samples_add_up(m, n);
    let at = crate::packed_audio::laws::reads(m, n);
    assert(at.next().1 is Ok);
    law_packets_stand_at_their_samples(at);
}

/// Whether three bytes spell `ID3`.
pub open spec fn tagged(s: Seq<u8>, pos: int) -> bool {
    pos + 3 <= s.len() && s[pos] == 0x49 && s[pos + 1] == 0x44 && s[pos + 2] == 0x33
}

/// The mark of a tag is told by its bytes.
proof fn lemma_tagged(s: Seq<u8>, pos: int)
    requires
        0 <= pos,
        pos + 3 <= s.len(),
    ensures
        s.subrange(pos, pos + 3) == crate::packed_audio::demuxer::id3_mark() <==> tagged(s, pos),
{
    let head = s.subrange(pos, pos + 3);
    let mark = seq![0x49u8, 0x44, 0x33];
    assert(head[0] == s[pos] && head[1] == s[pos + 1] && head[2] == s[pos + 2]);
    if tagged(s, pos) {
        assert(head =~= mark);
    }
}

/// Whether the last tick at or before a number of samples behind an anchor fits 64
/// bits.
pub open spec fn time_fits(base: i64, samples: int, rate: int) -> bool {
    base + samples * 90000 / rate <= 9223372036854775807
}

/// At a complete frame of the segment's configuration, the frame is delivered,
/// unless its samples or its times do not fit 64 bits.
pub proof fn law_frames_are_delivered(m: AacModel)
    requires
        m.valid(),
        crate::laws::frames::complete(m.data, m.pos),
        !tagged(m.data, m.pos),
        (crate::packed_audio::adts::frame_at(m.data, m.pos).out->Ok_0).0 == m.config,
    ensures
        ({
            let size = crate::laws::frames::frame_size(m.data, m.pos);
            let count = crate::laws::frames::sample_count(m.data, m.pos);
            let rate = m.config.sample_rate as int;
            let (after, out) = m.next();
            &&& after.pos == m.pos + size
            &&& after.consumed == m.consumed
            &&& after.data == m.data && after.base_pts == m.base_pts && after.config == m.config
                && after.audio_start == m.audio_start
            &&& !time_fits(m.base_pts, m.samples as int, rate) ==> out == Err::<PacketModel, Fault>(
                Fault::TimestampOverflow,
            ) && after.samples == m.samples
            &&& time_fits(m.base_pts, m.samples as int, rate) && m.samples + count
                > 18446744073709551615 ==> out == Err::<PacketModel, Fault>(
                Fault::SampleCountOverflow,
            ) && after.samples == m.samples
            &&& time_fits(m.base_pts, m.samples as int, rate) && m.samples + count
                <= 18446744073709551615 && !time_fits(m.base_pts, m.samples + count, rate) ==> out
                == Err::<PacketModel, Fault>(Fault::TimestampOverflow) && after.samples == m.samples
                + count
            &&& time_fits(m.base_pts, m.samples as int, rate) && m.samples + count
                <= 18446744073709551615 && time_fits(m.base_pts, m.samples + count, rate) ==> out
                is Ok && (out->Ok_0).data == m.data.subrange(m.pos, m.pos + size)
        }),
{
    lemma_tagged(m.data, m.pos);
    crate::laws::frames::law_accepted_frames(m.data, m.pos);
}

/// A frame of another configuration is refused.
pub proof fn law_configuration_changes_are_refused(m: AacModel)
    requires
        m.valid(),
        crate::laws::frames::complete(m.data, m.pos),
        !tagged(m.data, m.pos),
        (crate::packed_audio::adts::frame_at(m.data, m.pos).out->Ok_0).0 != m.config,
    ensures
        m.next().1 == Err::<PacketModel, Fault>(Fault::ConfigChangedWithinSegment),
        m.next().0 == (AacModel {
            pos: m.pos + crate::laws::frames::frame_size(m.data, m.pos),
            ..m
        }),
{
    lemma_tagged(m.data, m.pos);
    crate::laws::frames::law_accepted_frames(m.data, m.pos);
}

/// The end of a segment is clean exactly behind its last byte. One or two bytes
/// more are a fault, and so is what is neither a tag nor a frame.
pub proof fn law_ends_of_segments(m: AacModel)
    requires
        m.valid(),
    ensures
        m.pos == m.data.len() ==> m.next().1 == Err::<PacketModel, Fault>(Fault::Eof) && m.next().0
            == m,
        m.pos < m.data.len() < m.pos + 3 ==> m.next().1 == Err::<PacketModel, Fault>(
            Fault::Truncated,
        ) && m.next().0 == (AacModel { pos: m.data.len() as int, ..m }),
        m.pos + 3 <= m.data.len() && !tagged(m.data, m.pos) ==> (match
        crate::packed_audio::adts::frame_at(m.data, m.pos).out {
            Err(f) => m.next().1 == Err::<PacketModel, Fault>(f) && m.next().0 == (AacModel {
                pos: crate::packed_audio::adts::frame_at(m.data, m.pos).end,
                ..m
            }),
            Ok(_) => true,
        }),
{
    if m.pos + 3 <= m.data.len() {
        lemma_tagged(m.data, m.pos);
    }
}

/// A tag before a packet is passed over, whatever timestamp it carries, and a
/// fault of the tag is one of the segment.
pub proof fn law_tags_between_packets(m: AacModel)
    requires
        m.valid(),
        tagged(m.data, m.pos),
    ensures
        ({
            let tag = crate::packed_audio::id3::tag_at(m.data, m.pos + 3, m.consumed);
            let behind = AacModel { pos: tag.end, consumed: tag.consumed, ..m };
            &&& tag.out is Ok ==> m.next() == behind.next()
            &&& tag.out is Err ==> m.next() == (behind, Err::<PacketModel, Fault>(tag.out->Err_0))
        }),
{
    lemma_tagged(m.data, m.pos);
    crate::packed_audio::id3::lemma_tag_bounds(m.data, m.pos + 3, m.consumed);
}

/// Rewinding leads back to the first frame, with no samples before it and the
/// bound on metadata counted anew. Landing leads to the landing likewise.
pub proof fn law_rewinding_and_landing(m: AacModel, landing: Landing)
    ensures
        m.rewound().pos == m.audio_start,
        m.rewound().samples == 0,
        m.rewound().consumed == 0,
        m.landed(landing).pos == landing.pos,
        m.landed(landing).samples == landing.samples,
        m.landed(landing).consumed == 0,
        m.rewound().data == m.data && m.landed(landing).data == m.data,
        m.rewound().audio_start == m.audio_start && m.landed(landing).audio_start == m.audio_start,
        m.rewound().config == m.config && m.landed(landing).config == m.config,
        m.rewound().base_pts == m.base_pts && m.landed(landing).base_pts == m.base_pts,
{
}

/// A segment has the one stream whose index is zero, and a seek on another is
/// refused and leaves it as it is.
pub proof fn law_seeks_on_other_streams(m: AacModel, stream_index: u32, target: i64)
    requires
        stream_index > 0,
    ensures
        m.seek(stream_index, target).0 == m,
        m.seek(stream_index, target).1 == Err::<i64, Fault>(Fault::NoSuchAudioStream),
{
}

/// The head of a segment is read over its tags, whose timestamps must agree, up to
/// its first frame.
pub proof fn law_heads_are_read_over_tags(
    s: Seq<u8>,
    pos: int,
    consumed: int,
    seen: Option<i64>,
)
    requires
        0 <= pos <= s.len(),
    ensures
        ({
            let head = crate::packed_audio::demuxer::head_at(s, pos, consumed, seen);
            let tag = crate::packed_audio::id3::tag_at(s, pos + 3, consumed);
            let frame = crate::packed_audio::adts::frame_at(s, pos);
            let read = tag.out->Ok_0;
            let enough = pos + 3 <= s.len();
            &&& pos == s.len() ==> head is Err && head->Err_0 == Fault::NoAudio
            &&& pos < s.len() && !enough ==> head is Err && head->Err_0 == Fault::Truncated
            &&& enough && tagged(s, pos) && tag.out is Err ==> head is Err && head->Err_0
                == tag.out->Err_0
            &&& enough && tagged(s, pos) && tag.out is Ok && read is None ==> head
                == crate::packed_audio::demuxer::head_at(s, tag.end, tag.consumed, seen)
            &&& enough && tagged(s, pos) && tag.out is Ok && read is Some && seen is Some && seen
                != read ==> head is Err && head->Err_0 == Fault::ConflictingSegmentTimestamps
            &&& enough && tagged(s, pos) && tag.out is Ok && read is Some && (seen is None || seen
                == read) ==> head == crate::packed_audio::demuxer::head_at(
                s,
                tag.end,
                tag.consumed,
                read,
            )
            &&& enough && !tagged(s, pos) && frame.out is Err ==> head is Err && head->Err_0
                == frame.out->Err_0
            &&& enough && !tagged(s, pos) && frame.out is Ok ==> head is Ok && (
            head->Ok_0).audio_start == pos && (head->Ok_0).config == (frame.out->Ok_0).0 && (
            head->Ok_0).timestamp == seen && (head->Ok_0).consumed == consumed
        }),
{
    if pos + 3 <= s.len() {
        lemma_tagged(s, pos);
        crate::packed_audio::id3::lemma_tag_bounds(s, pos + 3, consumed);
    }
}

/// A segment opens where its head can be read, has a timestamp, and the clock
/// places it. It then stands at its first frame, with nothing read of it. The
/// clock is anchored by the first such head, and by nothing else.
pub proof fn law_opening_segments(data: Seq<u8>, clock: Timeline, start: Seconds, elapsed: int)
    ensures
        ({
            let head = crate::packed_audio::demuxer::head_at(data, 0, 0, None);
            let r = crate::packed_audio::demuxer::opened(data, clock, elapsed);
            let after = crate::packed_audio::demuxer::anchored_by(data, clock, start);
            let timed = head is Ok && (head->Ok_0).timestamp is Some;
            let raw = (head->Ok_0).timestamp->Some_0;
            let time = clock.time_of(raw, elapsed, (head->Ok_0).config);
            &&& head is Err ==> r is Err && r->Err_0 == head->Err_0
            &&& head is Ok && !timed ==> r is Err && r->Err_0 == Fault::MissingTimestamp
            &&& timed && time is Err ==> r is Err && r->Err_0 == time->Err_0
            &&& timed && time is Ok ==> r is Ok && (r->Ok_0).data == data && (r->Ok_0).audio_start
                == (head->Ok_0).audio_start && (r->Ok_0).pos == (head->Ok_0).audio_start && (
            r->Ok_0).config == (head->Ok_0).config && (r->Ok_0).base_pts == time->Ok_0 && (
            r->Ok_0).samples == 0 && (r->Ok_0).consumed == (head->Ok_0).consumed
            &&& !timed || clock.anchor is Some ==> after == clock
            &&& timed && clock.anchor is None ==> after.anchor == Some(
                Anchor { origin: raw, start, config: (head->Ok_0).config },
            )
        }),
{
}

} // verus!
