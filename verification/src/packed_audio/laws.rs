//! What holds of packed audio as a whole: the clock, the packets of a segment,
//! seeking, and the metadata encodings.

use vstd::prelude::*;
use crate::packed_audio::adts::AdtsConfig;
use crate::packed_audio::id3::{MAX_METADATA_BYTES, WRAP};
use crate::packed_audio::timeline::Timeline;
use crate::packed_audio::{adts, demuxer, id3, timeline};
use crate::seconds::Seconds;

verus! {

/// The unsynchronised form of a byte sequence: a zero byte follows each `0xff`.
pub open spec fn unsynced(s: Seq<u8>) -> Seq<u8>
    decreases s.len(),
{
    if s.len() == 0 {
        s
    } else if s[0] == 0xff {
        seq![0xffu8, 0u8] + unsynced(s.skip(1))
    } else {
        seq![s[0]] + unsynced(s.skip(1))
    }
}

/// Taking unsynchronisation off gives back what was unsynchronised.
pub proof fn law_deunsync_undoes_unsync(s: Seq<u8>)
    ensures
        id3::deunsynced(unsynced(s)) == s,
    decreases s.len(),
{
    if s.len() > 0 {
        let rest = unsynced(s.skip(1));
        law_deunsync_undoes_unsync(s.skip(1));
        let u = unsynced(s);
        if s[0] == 0xff {
            assert(u.skip(2) =~= rest);
        } else {
            assert(u.skip(1) =~= rest);
        }
        assert(seq![s[0]] + s.skip(1) =~= s);
    }
}

/// Taking unsynchronisation off never lengthens.
pub proof fn law_deunsync_shrinks(s: Seq<u8>)
    ensures
        id3::deunsynced(s).len() <= s.len(),
    decreases s.len(),
{
    if s.len() > 0 {
        if s[0] == 0xff && s.len() > 1 && s[1] == 0 {
            law_deunsync_shrinks(s.skip(2));
        } else {
            law_deunsync_shrinks(s.skip(1));
        }
    }
}

/// The four synchsafe bytes of a number.
pub open spec fn synchsafe_bytes(n: nat) -> Seq<u8> {
    seq![
        ((n / 2097152) % 128) as u8,
        ((n / 16384) % 128) as u8,
        ((n / 128) % 128) as u8,
        (n % 128) as u8,
    ]
}

/// Every number below 2^28 is read back from its synchsafe bytes.
pub proof fn law_synchsafe_round_trip(n: nat)
    requires
        n < 268435456,
    ensures
        id3::synchsafe_value(synchsafe_bytes(n)) == Some(n),
{
    let b = synchsafe_bytes(n);
    assert(forall|i: int| 0 <= i < 4 ==> b[i] < 128);
}

/// The timestamp of a run of frames is a 33-bit number, if the one found before
/// it is.
pub proof fn law_timestamp_is_33_bits(version: u8, flags: u8, frames: Seq<u8>, seen: Option<i64>)
    requires
        seen matches Some(t) ==> 0 <= t < WRAP,
    ensures
        id3::frames_timestamp(version, flags, frames, seen) matches Ok(Some(t)) ==> 0 <= t < WRAP,
    decreases frames.len(),
{
    if frames.len() > 0 && frames[0] != 0 {
        if let Some(n) = id3::first_frame_len(version, frames) {
            match id3::frame_timestamp(version, flags, frames.take(n as int)) {
                Ok(None) => {
                    law_timestamp_is_33_bits(version, flags, frames.skip(n as int), seen);
                },
                Ok(Some(t)) => {
                    law_timestamp_is_33_bits(version, flags, frames.skip(n as int), Some(t));
                },
                Err(_) => {},
            }
        }
    }
}

/// The low `k` bytes of a number, the most significant first.
pub open spec fn be_bytes(n: nat, k: nat) -> Seq<u8>
    decreases k,
{
    if k == 0 {
        seq![]
    } else {
        be_bytes(n / 256, (k - 1) as nat).push((n % 256) as u8)
    }
}

/// The smallest ID3v2.3 tag that carries a transport timestamp: one PRIV frame.
pub open spec fn timestamp_tag(t: i64) -> Seq<u8> {
    demuxer::id3_mark() + seq![3u8, 0, 0, 0, 0, 0, 63] + id3::priv_id() + seq![
        0u8,
        0,
        0,
        53,
        0,
        0,
    ] + id3::owner() + seq![0u8] + be_bytes(t as nat, 8)
}

/// A number is read back from its bytes, if they have room for it.
proof fn lemma_be_bytes(n: nat, k: nat)
    requires
        n < vstd::arithmetic::power::pow(256, k),
    ensures
        be_bytes(n, k).len() == k,
        crate::bytes::be_value(be_bytes(n, k)) == n,
    decreases k,
{
    reveal(vstd::arithmetic::power::pow);
    if k > 0 {
        lemma_be_bytes(n / 256, (k - 1) as nat);
        assert(be_bytes(n, k).drop_last() =~= be_bytes(n / 256, (k - 1) as nat));
    }
}

/// The timestamp that a tag carries is read back from it, and nothing behind the
/// tag is touched.
pub proof fn law_timestamp_round_trip(t: i64, rest: Seq<u8>)
    requires
        0 <= t < WRAP,
    ensures
        ({
            let s = timestamp_tag(t) + rest;
            &&& timestamp_tag(t).len() == 73
            &&& s.subrange(0, 3) == demuxer::id3_mark()
            &&& id3::tag_at(s, 3, 0).out == Ok::<Option<i64>, crate::fault::Fault>(Some(t))
            &&& id3::tag_at(s, 3, 0).end == 73
        }),
{
    reveal_strlit("com.apple.streaming.transportStreamTimestamp");
    let s = timestamp_tag(t) + rest;
    let header = s.subrange(3, 10);
    let body = s.subrange(10, 73);
    let content = body.skip(10);
    assert(vstd::arithmetic::power::pow(256, 8) == 18446744073709551616) by {
        reveal_with_fuel(vstd::arithmetic::power::pow, 9);
    }
    lemma_be_bytes(t as nat, 8);
    assert(id3::owner().len() == 44);
    assert(timestamp_tag(t).len() == 73);
    assert(s.subrange(0, 3) =~= demuxer::id3_mark());
    assert(header =~= seq![3u8, 0, 0, 0, 0, 0, 63]);
    assert(header.subrange(3, 7) =~= seq![0u8, 0, 0, 63]);
    assert(0u8 & 0x1fu8 == 0 && 0u8 & 0x80u8 == 0 && 0u8 & 0x40u8 == 0 && 0u8 & 0x20u8 == 0 && 0u8
        & !0x20u8 == 0) by (bit_vector);
    assert(id3::body_size(header) == Ok::<nat, crate::fault::Fault>(63nat));
    assert(body.take(4) =~= id3::priv_id());
    assert(body.subrange(4, 8) =~= seq![0u8, 0, 0, 53]);
    assert(crate::bytes::be_value(seq![0u8, 0, 0, 53]) == 53) by {
        reveal_with_fuel(crate::bytes::be_value, 5);
        let b = seq![0u8, 0, 0, 53];
        assert(b.drop_last().drop_last().drop_last().drop_last().len() == 0);
    }
    assert(id3::first_frame_len(3, body) == Some(63nat));
    assert(body.take(63) =~= body);
    assert(body.skip(63).len() == 0);
    assert(content =~= id3::owner() + seq![0u8] + be_bytes(t as nat, 8));
    assert(content[44] == 0);
    assert(forall|i: int| 0 <= i < 44 ==> content[i] != 0);
    content.index_of_first_ensures(0u8);
    assert(content.index_of_first(0u8) == Some(44int));
    assert(content.take(44) =~= id3::owner());
    assert(content.skip(45) =~= be_bytes(t as nat, 8));
    assert(id3::frame_timestamp(3, 0, body) == Ok::<Option<i64>, crate::fault::Fault>(Some(t)));
    reveal_with_fuel(id3::frames_timestamp, 2);
    reveal(id3::tag_at);
}

/// A segment that opens with a timestamp tag is anchored by that timestamp, and
/// its audio starts right behind the tag.
pub proof fn law_segment_is_anchored_by_its_tag(
    t: i64,
    audio: Seq<u8>,
    clock: Timeline,
    elapsed_ticks: int,
)
    requires
        0 <= t < WRAP,
        audio.len() >= 3,
        audio.take(3) != demuxer::id3_mark(),
    ensures
        ({
            let s = timestamp_tag(t) + audio;
            adts::frame_at(s, 73).out matches Ok(unit) ==> match clock.time_of(
                t,
                elapsed_ticks,
                unit.0,
            ) {
                Ok(base_pts) => {
                    &&& demuxer::opened(s, clock, elapsed_ticks) matches Ok(m)
                    &&& m.base_pts == base_pts
                    &&& m.config == unit.0
                    &&& m.audio_start == 73
                    &&& m.pos == 73
                    &&& m.samples == 0
                },
                Err(f) => demuxer::opened(s, clock, elapsed_ticks) == Err::<
                    demuxer::AacModel,
                    crate::fault::Fault,
                >(f),
            }
        }),
{
    let s = timestamp_tag(t) + audio;
    law_timestamp_round_trip(t, audio);
    assert(s.subrange(73, 76) =~= audio.take(3));
    reveal_with_fuel(demuxer::head_at, 2);
}

/// A tag is read only while the tags of the scan stay within one mebibyte.
pub proof fn law_metadata_is_bounded(s: Seq<u8>, pos: int, consumed: int)
    requires
        0 <= pos <= s.len(),
        0 <= consumed,
    ensures
        id3::tag_at(s, pos, consumed).out is Ok ==> {
            &&& id3::tag_at(s, pos, consumed).consumed <= MAX_METADATA_BYTES
            &&& id3::tag_at(s, pos, consumed).consumed == consumed + (id3::tag_at(
                s,
                pos,
                consumed,
            ).end - pos) + 3
        },
{
    reveal(id3::tag_at);
}

/// The unwrapped time is congruent to the raw timestamp on the 33-bit clock and
/// lies within half a turn of the expected time, and no other time does both.
pub proof fn law_unwrapping_is_nearest(expected: int, raw: int, time: int)
    ensures
        (timeline::nearest(expected, raw) - raw) % (WRAP as int) == 0,
        -(WRAP / 2) <= expected - timeline::nearest(expected, raw) < WRAP / 2,
        (time - raw) % (WRAP as int) == 0 && -(WRAP / 2) <= expected - time < WRAP / 2 ==> time
            == timeline::nearest(expected, raw),
{
    timeline::lemma_nearest_bounds(expected, raw);
    if (time - raw) % (WRAP as int) == 0 && -(WRAP / 2) <= expected - time < WRAP / 2 {
        let near = timeline::nearest(expected, raw);
        vstd::arithmetic::div_mod::lemma_fundamental_div_mod(time - raw, WRAP as int);
        vstd::arithmetic::div_mod::lemma_fundamental_div_mod(near - raw, WRAP as int);
        let a = (time - raw) / (WRAP as int);
        let b = (near - raw) / (WRAP as int);
        assert(WRAP * a - WRAP * b == WRAP * (a - b)) by (nonlinear_arith);
        assert(-WRAP < WRAP * (a - b) < WRAP);
        assert(a == b) by (nonlinear_arith)
            requires
                -WRAP < WRAP * (a - b) < WRAP,
                WRAP > 0,
        ;
    }
}

/// A transport time is recovered from its 33-bit remainder wherever the playlist
/// position is off by less than half a turn, over any number of wraps.
pub proof fn law_unwrapping_recovers_time(expected: int, time: int)
    requires
        -(WRAP / 2) <= expected - time < WRAP / 2,
    ensures
        timeline::nearest(expected, time % (WRAP as int)) == time,
{
    let raw = time % (WRAP as int);
    vstd::arithmetic::div_mod::lemma_fundamental_div_mod(time, WRAP as int);
    let turns = time / (WRAP as int);
    assert(time - raw == turns * WRAP) by (nonlinear_arith)
        requires
            time == WRAP * turns + raw,
    ;
    vstd::arithmetic::div_mod::lemma_mod_multiples_basic(turns, WRAP as int);
    law_unwrapping_is_nearest(expected, raw, time);
}

/// Once anchored, the clock keeps its anchor whatever segment is offered next, so
/// a segment's time does not depend on what was opened in between.
pub proof fn law_times_do_not_depend_on_order(
    clock: Timeline,
    raw: i64,
    elapsed_ticks: int,
    config: AdtsConfig,
    other_raw: i64,
    other_start: Seconds,
    other_config: AdtsConfig,
)
    requires
        clock.anchor is Some,
    ensures
        ({
            let after = Timeline {
                anchor: Some(clock.anchored(other_raw, other_start, other_config)),
            };
            after == clock && after.time_of(raw, elapsed_ticks, config) == clock.time_of(
                raw,
                elapsed_ticks,
                config,
            )
        }),
{
}

/// The first segment keeps its raw timestamp, and keeps it when it is opened
/// again at its own position.
pub proof fn law_first_segment_keeps_its_timestamp(raw: i64, start: Seconds, config: AdtsConfig)
    ensures
        ({
            let fresh = Timeline { anchor: None };
            let after = Timeline { anchor: Some(fresh.anchored(raw, start, config)) };
            fresh.time_of(raw, 0, config) == Ok::<i64, crate::fault::Fault>(raw) && after.time_of(
                raw,
                0,
                config,
            ) == Ok::<i64, crate::fault::Fault>(raw)
        }),
{
}

/// Consecutive packets tile the clock: each starts where the one before ends, and
/// each lasts. The time of each is the anchor plus all samples before it, scaled
/// in one division.
pub proof fn law_packets_tile_the_clock(m: demuxer::AacModel)
    requires
        m.valid(),
    ensures
        m.next().1 matches Ok(p) ==> {
            &&& p.pts == m.time(m.samples as int)
            &&& p.pts + p.duration == m.time(m.next().0.samples as int)
            &&& p.dts == p.pts
            &&& p.keyframe
            &&& p.duration >= 960
            &&& m.next().0.next().1 matches Ok(q) ==> q.pts == p.pts + p.duration
        },
{
    lemma_next(m);
    lemma_next(m.next().0);
}

/// A packet holds a frame of the segment unchanged, header and checksum included.
pub proof fn law_packets_keep_their_frames(m: demuxer::AacModel)
    requires
        m.valid(),
    ensures
        m.next().1 matches Ok(p) ==> {
            let start = demuxer::unit_at(m.data, m.pos, m.consumed).start;
            let frame = adts::frame_at(m.data, start);
            &&& m.pos <= start
            &&& m.next().0.pos == frame.end
            &&& p.data == m.data.subrange(start, frame.end)
            &&& frame.out matches Ok(unit)
            &&& unit.0 == m.config
            &&& m.next().0.samples == m.samples + unit.1
        },
{
    demuxer::lemma_unit_advances(m.data, m.pos, m.consumed);
    lemma_unit_is_frame(m.data, m.pos, m.consumed);
}

/// What `unit_at` finds is the frame at its start.
pub proof fn lemma_unit_is_frame(s: Seq<u8>, pos: int, consumed: int)
    requires
        0 <= pos <= s.len(),
    ensures
        ({
            let unit = demuxer::unit_at(s, pos, consumed);
            unit.out matches Ok(Some(found)) ==> {
                &&& pos <= unit.start
                &&& unit.start + 3 <= s.len()
                &&& adts::frame_at(s, unit.start).end == unit.end
                &&& adts::frame_at(s, unit.start).out == Ok::<(AdtsConfig, u64), crate::fault::Fault>(
                    found,
                )
            }
        }),
    decreases s.len() - pos,
{
    if pos + 3 <= s.len() {
        id3::lemma_tag_bounds(s, pos + 3, consumed);
        if s.subrange(pos, pos + 3) == demuxer::id3_mark() {
            let tag = id3::tag_at(s, pos + 3, consumed);
            if tag.out is Ok {
                lemma_unit_is_frame(s, tag.end, tag.consumed);
            }
        }
    }
}

/// Reading a packet keeps the state valid, advances, and takes time.
pub proof fn lemma_next(m: demuxer::AacModel)
    requires
        m.valid(),
    ensures
        m.next().0.valid(),
        m.next().1 matches Ok(p) ==> {
            &&& m.pos < m.next().0.pos
            &&& p.pts == m.time(m.samples as int)
            &&& p.pts + p.duration == m.time(m.next().0.samples as int)
            &&& p.duration >= 960
            &&& m.samples + 1024 <= m.next().0.samples
        },
{
    demuxer::lemma_unit_advances(m.data, m.pos, m.consumed);
    lemma_unit_is_frame(m.data, m.pos, m.consumed);
    adts::lemma_frame_bounds(m.data, m.audio_start);
    let unit = demuxer::unit_at(m.data, m.pos, m.consumed);
    if let Ok(Some(found)) = unit.out {
        adts::lemma_frame_bounds(m.data, unit.start);
        demuxer::lemma_span(m.samples as int, found.1 as int, m.config.sample_rate as int);
    }
}

/// With fewer ID3 bytes used up, a tag that could be read reads the same.
proof fn lemma_tag_with_less(s: Seq<u8>, pos: int, consumed: int, less: int)
    requires
        0 <= pos <= s.len(),
        0 <= less <= consumed,
        id3::tag_at(s, pos, consumed).out is Ok,
    ensures
        id3::tag_at(s, pos, less).out == id3::tag_at(s, pos, consumed).out,
        id3::tag_at(s, pos, less).end == id3::tag_at(s, pos, consumed).end,
        0 <= id3::tag_at(s, pos, less).consumed <= id3::tag_at(s, pos, consumed).consumed,
{
    reveal(id3::tag_at);
}

/// With fewer ID3 bytes used up, a frame or a clean end is found the same.
proof fn lemma_unit_with_less(s: Seq<u8>, pos: int, consumed: int, less: int)
    requires
        0 <= pos <= s.len(),
        0 <= less <= consumed,
        demuxer::unit_at(s, pos, consumed).out is Ok,
    ensures
        demuxer::unit_at(s, pos, less).out == demuxer::unit_at(s, pos, consumed).out,
        demuxer::unit_at(s, pos, less).start == demuxer::unit_at(s, pos, consumed).start,
        demuxer::unit_at(s, pos, less).end == demuxer::unit_at(s, pos, consumed).end,
        0 <= demuxer::unit_at(s, pos, less).consumed <= demuxer::unit_at(s, pos, consumed).consumed,
    decreases s.len() - pos,
{
    if pos + 3 <= s.len() {
        id3::lemma_tag_bounds(s, pos + 3, consumed);
        if s.subrange(pos, pos + 3) == demuxer::id3_mark() {
            lemma_tag_with_less(s, pos + 3, consumed, less);
            let tag = id3::tag_at(s, pos + 3, consumed);
            let tag_less = id3::tag_at(s, pos + 3, less);
            lemma_unit_with_less(s, tag.end, tag.consumed, tag_less.consumed);
        }
    }
}

/// Metadata between the frames is passed over: a frame is found behind a tag as
/// if the tag were not there.
pub proof fn law_metadata_is_passed_over(s: Seq<u8>, pos: int, consumed: int)
    requires
        0 <= pos,
        pos + 3 <= s.len(),
        s.subrange(pos, pos + 3) == demuxer::id3_mark(),
        id3::tag_at(s, pos + 3, consumed).out is Ok,
    ensures
        ({
            let tag = id3::tag_at(s, pos + 3, consumed);
            demuxer::unit_at(s, pos, consumed) == demuxer::unit_at(s, tag.end, tag.consumed)
        }),
{
    id3::lemma_tag_bounds(s, pos + 3, consumed);
}

/// However many tags precede a frame, they stay within one mebibyte together with
/// those that the scan has passed before.
pub proof fn law_scans_are_bounded(s: Seq<u8>, pos: int, consumed: int)
    requires
        0 <= pos <= s.len(),
        0 <= consumed <= MAX_METADATA_BYTES,
    ensures
        demuxer::unit_at(s, pos, consumed).out is Ok ==> consumed <= demuxer::unit_at(
            s,
            pos,
            consumed,
        ).consumed <= MAX_METADATA_BYTES,
    decreases s.len() - pos,
{
    if pos + 3 <= s.len() && s.subrange(pos, pos + 3) == demuxer::id3_mark() {
        id3::lemma_tag_bounds(s, pos + 3, consumed);
        law_metadata_is_bounded(s, pos + 3, consumed);
        let tag = id3::tag_at(s, pos + 3, consumed);
        if tag.out is Ok {
            law_scans_are_bounded(s, tag.end, tag.consumed);
        }
    }
}

/// A tag's timestamp is a 33-bit number.
proof fn lemma_tag_timestamp(s: Seq<u8>, pos: int, consumed: int)
    ensures
        id3::tag_at(s, pos, consumed).out matches Ok(Some(t)) ==> 0 <= t < WRAP,
{
    reveal(id3::tag_at);
    assert forall|version: u8, flags: u8, frames: Seq<u8>| {
        (#[trigger] id3::frames_timestamp(version, flags, frames, None)) matches Ok(Some(t)) ==> 0
            <= t < WRAP
    } by {
        law_timestamp_is_33_bits(version, flags, frames, None);
    }
}

/// The timestamp of a segment's head is a 33-bit number.
proof fn lemma_head_timestamp(s: Seq<u8>, pos: int, consumed: int, seen: Option<i64>)
    requires
        0 <= pos <= s.len(),
        seen matches Some(t) ==> 0 <= t < WRAP,
    ensures
        demuxer::head_at(s, pos, consumed, seen) matches Ok(head) ==> (head.timestamp matches Some(
            t,
        ) ==> 0 <= t < WRAP),
    decreases s.len() - pos,
{
    if pos + 3 <= s.len() && s.subrange(pos, pos + 3) == demuxer::id3_mark() {
        id3::lemma_tag_bounds(s, pos + 3, consumed);
        lemma_tag_timestamp(s, pos + 3, consumed);
        let tag = id3::tag_at(s, pos + 3, consumed);
        match tag.out {
            Err(_) => {},
            Ok(None) => {
                lemma_head_timestamp(s, tag.end, tag.consumed, seen);
            },
            Ok(Some(t)) => {
                lemma_head_timestamp(s, tag.end, tag.consumed, Some(t));
            },
        }
    }
}

/// A segment that opens has a 33-bit timestamp before its first frame. It starts
/// at that timestamp, if it is the first; at a time congruent to it, and with the
/// configuration of the first, if it is not.
pub proof fn law_opened_segments_are_timed(data: Seq<u8>, clock: Timeline, elapsed_ticks: int)
    ensures
        demuxer::opened(data, clock, elapsed_ticks) matches Ok(m) ==> {
            &&& demuxer::head_at(data, 0, 0, None) matches Ok(head)
            &&& head.timestamp matches Some(raw)
            &&& 0 <= raw < WRAP
            &&& match clock.anchor {
                None => m.base_pts == raw,
                Some(anchor) => m.config == anchor.config && (m.base_pts - raw) % (WRAP as int)
                    == 0,
            }
        },
{
    lemma_head_timestamp(data, 0, 0, None);
    if let Ok(head) = demuxer::head_at(data, 0, 0, None) {
        if let (Some(raw), Some(anchor)) = (head.timestamp, clock.anchor) {
            timeline::lemma_nearest_bounds(anchor.origin + elapsed_ticks, raw as int);
        }
    }
}

/// Reading the frames of a tag never ends in a clean end.
proof fn lemma_frames_not_eof(version: u8, flags: u8, frames: Seq<u8>, seen: Option<i64>)
    ensures
        id3::frames_timestamp(version, flags, frames, seen) != Err::<
            Option<i64>,
            crate::fault::Fault,
        >(crate::fault::Fault::Eof),
    decreases frames.len(),
{
    if frames.len() > 0 && frames[0] != 0 {
        if let Some(n) = id3::first_frame_len(version, frames) {
            match id3::frame_timestamp(version, flags, frames.take(n as int)) {
                Ok(None) => {
                    lemma_frames_not_eof(version, flags, frames.skip(n as int), seen);
                },
                Ok(Some(t)) => {
                    lemma_frames_not_eof(version, flags, frames.skip(n as int), Some(t));
                },
                Err(_) => {},
            }
        }
    }
}

/// A fault inside the segment is never taken for a clean end.
proof fn lemma_unit_not_eof(s: Seq<u8>, pos: int, consumed: int)
    requires
        0 <= pos <= s.len(),
    ensures
        demuxer::unit_at(s, pos, consumed).out != Err::<
            Option<(AdtsConfig, u64)>,
            crate::fault::Fault,
        >(crate::fault::Fault::Eof),
    decreases s.len() - pos,
{
    if pos + 3 <= s.len() {
        id3::lemma_tag_bounds(s, pos + 3, consumed);
        let tag = id3::tag_at(s, pos + 3, consumed);
        if s.subrange(pos, pos + 3) != demuxer::id3_mark() {
            reveal(adts::frame_at);
        } else if tag.out is Ok {
            lemma_unit_not_eof(s, tag.end, tag.consumed);
        } else {
            assert(tag.out != Err::<Option<i64>, crate::fault::Fault>(crate::fault::Fault::Eof))
                by {
                reveal(id3::tag_at);
                assert forall|version: u8, flags: u8, frames: Seq<u8>, seen: Option<i64>|
                    (#[trigger] id3::frames_timestamp(version, flags, frames, seen)) != Err::<
                        Option<i64>,
                        crate::fault::Fault,
                    >(crate::fault::Fault::Eof) by {
                    lemma_frames_not_eof(version, flags, frames, seen);
                }
            }
        }
    }
}

/// With fewer ID3 bytes used up, a packet or a clean end is read the same.
proof fn lemma_next_with_less(m: demuxer::AacModel, less: int)
    requires
        m.valid(),
        0 <= less <= m.consumed,
        m.next().1 is Ok || m.next().1 == Err::<demuxer::PacketModel, crate::fault::Fault>(
            crate::fault::Fault::Eof,
        ),
    ensures
        ({
            let l = demuxer::AacModel { consumed: less, ..m };
            &&& l.valid()
            &&& l.next().1 == m.next().1
            &&& l.next().0 == (demuxer::AacModel { consumed: l.next().0.consumed, ..m.next().0 })
            &&& 0 <= l.next().0.consumed <= m.next().0.consumed
        }),
{
    lemma_unit_not_eof(m.data, m.pos, m.consumed);
    lemma_unit_with_less(m.data, m.pos, m.consumed, less);
}

/// The state in which a scan saw its landing, and what the landing is then worth.
spec fn saw(l: demuxer::AacModel, m: demuxer::AacModel, landing: demuxer::Landing) -> bool {
    &&& l.valid()
    &&& l.consumed >= 0
    &&& l.next().0 == m
    &&& l.pos == landing.pos
    &&& l.samples == landing.samples
    &&& l.next().1 matches Ok(p) && p.pts == landing.pts
}

/// What a finished scan has landed on.
spec fn good_landing(m: demuxer::AacModel, landing: demuxer::Landing, target: i64) -> bool {
    let a = m.landed(landing);
    &&& a.valid()
    &&& a.next().1 matches Ok(p) && p.pts == landing.pts
    &&& a.next().0.next().1 matches Ok(q) ==> q.pts > target
}

/// A scan that has seen its landing ends on a frame at or before the target, with
/// no further frame at or before it.
proof fn lemma_scan(
    m: demuxer::AacModel,
    target: i64,
    landing: demuxer::Landing,
    l: demuxer::AacModel,
)
    requires
        m.valid(),
        saw(l, m, landing),
        landing.pts < target,
    ensures
        m.scan(target, landing).1 matches Ok(found) ==> good_landing(m, found, target) && found.pts
            <= target,
        m.scan(target, landing).1 is Ok ==> {
            let end = m.scan(target, landing).0;
            end == (demuxer::AacModel {
                pos: end.pos,
                samples: end.samples,
                consumed: end.consumed,
                ..m
            })
        },
    decreases m.data.len() - m.pos,
{
    lemma_next(m);
    lemma_next(l);
    lemma_next_with_less(l, 0);
    let from = m.landed(landing);
    assert(from == (demuxer::AacModel { consumed: 0, ..l }));
    let again = from.next().0;
    match m.next().1 {
        Err(f) => {
            if f == crate::fault::Fault::Eof {
                lemma_next_with_less(m, again.consumed);
                assert(again == (demuxer::AacModel { consumed: again.consumed, ..m }));
                assert(good_landing(m, landing, target));
            }
        },
        Ok(p) => {
            lemma_next_with_less(m, again.consumed);
            assert(again == (demuxer::AacModel { consumed: again.consumed, ..m }));
            if p.pts > target {
                assert(good_landing(m, landing, target));
            } else {
                let here = demuxer::Landing { pos: m.pos, samples: m.samples, pts: p.pts };
                lemma_unit_with_less(m.data, m.pos, m.consumed, 0);
                if p.pts == target {
                    lemma_next_with_less(m, 0);
                    let a = m.landed(here);
                    assert(a == (demuxer::AacModel { consumed: 0, ..m }));
                    law_packets_tile_the_clock(a);
                    assert(good_landing(m, here, target));
                } else {
                    lemma_scan(m.next().0, target, here, m);
                    assert(m.landed(m.scan(target, landing).1->Ok_0) == m.next().0.landed(
                        m.scan(target, landing).1->Ok_0,
                    ));
                }
            }
        },
    }
}

/// A seek lands on a frame: reading on delivers a packet with the time that was
/// returned. It lies at or before the target, or is the segment's first; and the
/// packet behind it lies after the target.
pub proof fn law_seek_lands_at_or_before(m: demuxer::AacModel, target: i64)
    requires
        m.valid(),
    ensures
        m.seek(0, target).1 matches Ok(landed) ==> {
            let after = m.seek(0, target).0;
            &&& after.next().1 matches Ok(p) && p.pts == landed
            &&& landed <= target || (landed == m.base_pts && after.pos == m.audio_start
                && after.samples == 0)
            &&& after.next().0.next().1 matches Ok(q) ==> q.pts > target
        },
{
    let start = m.rewound();
    let first = demuxer::Landing { pos: m.audio_start, samples: 0, pts: m.base_pts };
    lemma_first(m);
    match start.next().1 {
        Err(_) => {},
        Ok(p) => {
            lemma_next(start);
            law_packets_tile_the_clock(start);
            assert(start.landed(first) == start);
            if p.pts < target {
                lemma_unit_with_less(start.data, start.pos, 0, 0);
                lemma_scan(start.next().0, target, first, start);
                if let Ok(found) = start.scan(target, first).1 {
                    let end = start.scan(target, first).0;
                    assert(end.landed(found) == start.next().0.landed(found));
                }
            } else {
                assert(start.next().0.landed(first) == start);
            }
        },
    }
}

/// The segment's first packet, if it can be read, carries the segment's anchor.
proof fn lemma_first(m: demuxer::AacModel)
    requires
        m.valid(),
    ensures
        m.rewound().valid(),
        m.rewound().next().1 matches Ok(p) ==> p.pts == m.base_pts,
        m.rewound().next().1 != Err::<demuxer::PacketModel, crate::fault::Fault>(
            crate::fault::Fault::Eof,
        ),
{
    assert(0 * demuxer::CLOCK_HZ == 0);
    vstd::arithmetic::div_mod::lemma_basic_div(0, m.config.sample_rate as int);
}

/// Where a seek lands does not depend on how far the segment was read before.
pub proof fn law_seek_forgets_position(m: demuxer::AacModel, target: i64)
    requires
        m.valid(),
    ensures
        m.next().0.seek(0, target) == m.seek(0, target),
        m.seek(0, target).0.seek(0, target) == m.seek(0, target),
{
    let first = demuxer::Landing { pos: m.audio_start, samples: 0, pts: m.base_pts };
    lemma_scan_keeps_stream(m.rewound(), target, first);
    assert(m.next().0.rewound() == m.rewound());
    assert(m.seek(0, target).0.rewound() == m.rewound());
}

/// A scan changes the position only.
proof fn lemma_scan_keeps_stream(m: demuxer::AacModel, target: i64, landing: demuxer::Landing)
    requires
        m.valid(),
    ensures
        ({
            let end = m.scan(target, landing).0;
            end == (demuxer::AacModel {
                pos: end.pos,
                samples: end.samples,
                consumed: end.consumed,
                ..m
            })
        }),
    decreases m.data.len() - m.pos,
{
    lemma_next(m);
    if let Ok(p) = m.next().1 {
        if p.pts < target {
            let here = demuxer::Landing { pos: m.pos, samples: m.samples, pts: p.pts };
            lemma_scan_keeps_stream(m.next().0, target, here);
        }
    }
}

/// The state after `n` packets of the segment.
pub open spec fn after_packets(m: demuxer::AacModel, n: nat) -> demuxer::AacModel
    decreases n,
{
    if n == 0 {
        m.rewound()
    } else {
        after_packets(m, (n - 1) as nat).next().0
    }
}

/// The first packets of the segment can be read.
pub open spec fn readable(m: demuxer::AacModel, n: nat) -> bool {
    forall|i: nat| i < n ==> (#[trigger] after_packets(m, i)).next().1 is Ok
}

/// Seeking to a packet's own time lands on that packet.
pub proof fn law_seek_finds_each_packet(m: demuxer::AacModel, n: nat)
    requires
        m.valid(),
        readable(m, n + 1),
    ensures
        ({
            let there = after_packets(m, n);
            let p = there.next().1->Ok_0;
            &&& m.seek(0, p.pts).1 == Ok::<i64, crate::fault::Fault>(p.pts)
            &&& m.seek(0, p.pts).0 == (demuxer::AacModel { consumed: 0, ..there })
        }),
{
    let there = after_packets(m, n);
    assert(there.next().1 is Ok);
    let target = (there.next().1->Ok_0).pts;
    let first = demuxer::Landing { pos: m.audio_start, samples: 0, pts: m.base_pts };
    let landing = lemma_scan_reaches(m, n, n, target, first);
    let here = demuxer::Landing { pos: there.pos, samples: there.samples, pts: target };
    assert(there.scan(target, landing) == (
        there.next().0,
        Ok::<demuxer::Landing, crate::fault::Fault>(here),
    ));
    assert(there.next().0.landed(here) == (demuxer::AacModel { consumed: 0, ..there }));
}

/// A scan for a time that a packet does not exceed passes the state after each
/// packet before it.
proof fn lemma_scan_reaches(
    m: demuxer::AacModel,
    k: nat,
    n: nat,
    target: i64,
    first: demuxer::Landing,
) -> (landing: demuxer::Landing)
    requires
        m.valid(),
        k <= n,
        readable(m, n + 1),
        n == 0 || (after_packets(m, n).next().1->Ok_0).pts <= target,
    ensures
        after_packets(m, k).valid(),
        m.rewound().scan(target, first) == after_packets(m, k).scan(target, landing),
        k == 0 ==> landing == first,
    decreases k,
{
    if k == 0 {
        first
    } else {
        let j = (k - 1) as nat;
        let before = lemma_scan_reaches(m, j, n, target, first);
        let at = after_packets(m, j);
        assert(at.next().1 is Ok);
        lemma_next(at);
        lemma_later(m, j, n);
        let p = at.next().1->Ok_0;
        demuxer::Landing { pos: at.pos, samples: at.samples, pts: p.pts }
    }
}

/// Packets come in the order of their times.
proof fn lemma_later(m: demuxer::AacModel, i: nat, j: nat)
    requires
        m.valid(),
        i < j,
        readable(m, j + 1),
    ensures
        after_packets(m, i).valid(),
        after_packets(m, j).valid(),
        (after_packets(m, i).next().1->Ok_0).pts < (after_packets(m, j).next().1->Ok_0).pts,
    decreases j,
{
    lemma_packets_valid(m, i);
    lemma_packets_valid(m, j);
    let h = (j - 1) as nat;
    lemma_packets_valid(m, h);
    assert(after_packets(m, h).next().1 is Ok);
    assert(after_packets(m, j).next().1 is Ok);
    law_packets_tile_the_clock(after_packets(m, h));
    if i < h {
        lemma_later(m, i, h);
    }
}

/// Reading keeps the state valid.
proof fn lemma_packets_valid(m: demuxer::AacModel, n: nat)
    requires
        m.valid(),
    ensures
        after_packets(m, n).valid(),
    decreases n,
{
    if n > 0 {
        lemma_packets_valid(m, (n - 1) as nat);
        lemma_next(after_packets(m, (n - 1) as nat));
    }
}

/// A seek resumes the segment at the packet that lies at or before the target and
/// has none such behind it, or at the first: the state is the one after the
/// packets before it, with the metadata bound counted anew.
pub proof fn law_seek_resumes_the_segment(m: demuxer::AacModel, n: nat, target: i64)
    requires
        m.valid(),
        readable(m, n + 1),
        n == 0 || (after_packets(m, n).next().1->Ok_0).pts <= target,
        match after_packets(m, n + 1).next().1 {
            Ok(q) => q.pts > target,
            Err(f) => f == crate::fault::Fault::Eof,
        },
    ensures
        m.seek(0, target) == (
            demuxer::AacModel { consumed: 0, ..after_packets(m, n) },
            Ok::<i64, crate::fault::Fault>((after_packets(m, n).next().1->Ok_0).pts),
        ),
{
    let there = after_packets(m, n);
    assert(there.next().1 is Ok);
    let p = there.next().1->Ok_0;
    let first = demuxer::Landing { pos: m.audio_start, samples: 0, pts: m.base_pts };
    let here = demuxer::Landing { pos: there.pos, samples: there.samples, pts: p.pts };
    let landing = lemma_scan_reaches(m, n, n, target, first);
    lemma_next(there);
    lemma_first(m);
    let behind = after_packets(m, n + 1);
    assert(behind == there.next().0);
    if p.pts > target {
        assert(there.scan(target, landing) == (
            behind,
            Ok::<demuxer::Landing, crate::fault::Fault>(here),
        ));
        assert(behind.landed(here) == (demuxer::AacModel { consumed: 0, ..there }));
    } else if p.pts == target {
        assert(behind.landed(here) == (demuxer::AacModel { consumed: 0, ..there }));
    } else {
        assert(there.scan(target, landing) == behind.scan(target, here));
        assert(behind.scan(target, here) == (
            behind.next().0,
            Ok::<demuxer::Landing, crate::fault::Fault>(here),
        ));
        assert(behind.next().0.landed(here) == (demuxer::AacModel { consumed: 0, ..there }));
    }
}

/// A seek to a time before the segment lands on its first packet, whatever stands
/// behind that.
pub proof fn law_seek_before_the_start(m: demuxer::AacModel, target: i64)
    requires
        m.valid(),
        readable(m, 1),
        target < m.base_pts,
    ensures
        m.seek(0, target) == (m.rewound(), Ok::<i64, crate::fault::Fault>(m.base_pts)),
{
    assert(after_packets(m, 0).next().1 is Ok);
    lemma_first(m);
    let first = demuxer::Landing { pos: m.audio_start, samples: 0, pts: m.base_pts };
    assert(m.rewound().next().0.landed(first) == m.rewound());
}

/// A seek that meets a fault behind packets before the target fails with it, at
/// the place of the fault.
pub proof fn law_seek_fails_on_faults(m: demuxer::AacModel, n: nat, target: i64, f: crate::fault::Fault)
    requires
        m.valid(),
        readable(m, n),
        n == 0 || (after_packets(m, (n - 1) as nat).next().1->Ok_0).pts < target,
        after_packets(m, n).next().1 == Err::<demuxer::PacketModel, crate::fault::Fault>(f),
        f != crate::fault::Fault::Eof,
    ensures
        m.seek(0, target) == (
            after_packets(m, n).next().0,
            Err::<i64, crate::fault::Fault>(f),
        ),
{
    let first = demuxer::Landing { pos: m.audio_start, samples: 0, pts: m.base_pts };
    let at = after_packets(m, n);
    lemma_packets_valid(m, n);
    if n > 0 {
        let j = (n - 1) as nat;
        let before = after_packets(m, j);
        assert(before.next().1 is Ok);
        let landing = lemma_scan_reaches(m, j, j, target, first);
        let p = before.next().1->Ok_0;
        let here = demuxer::Landing { pos: before.pos, samples: before.samples, pts: p.pts };
        assert(before.scan(target, landing) == at.scan(target, here));
    }
}

/// The state after `n` more packets.
pub open spec fn reads(m: demuxer::AacModel, n: nat) -> demuxer::AacModel
    decreases n,
{
    if n == 0 {
        m
    } else {
        reads(m, (n - 1) as nat).next().0
    }
}

/// A segment as it stands when it was just opened.
pub open spec fn fresh(m: demuxer::AacModel) -> bool {
    m.valid() && m.pos == m.audio_start && m.samples == 0 && m.consumed >= 0
}

/// Reading on delivers `total` packets and then ends cleanly.
pub open spec fn holds_packets(m: demuxer::AacModel, total: nat) -> bool {
    &&& forall|i: nat| i < total ==> (#[trigger] reads(m, i)).next().1 is Ok
    &&& reads(m, total).next().1 == Err::<demuxer::PacketModel, crate::fault::Fault>(
        crate::fault::Fault::Eof,
    )
}

/// The time of the packet behind `n` packets.
pub open spec fn time_behind(m: demuxer::AacModel, n: nat) -> i64 {
    (reads(m, n).next().1->Ok_0).pts
}

/// Whether packet `n` of `total` is the last at or before a time, or the first
/// packet where there is none.
pub open spec fn lands_on(m: demuxer::AacModel, total: nat, target: i64, n: nat) -> bool {
    &&& n < total
    &&& n == 0 || time_behind(m, n) <= target
    &&& n + 1 < total ==> time_behind(m, n + 1) > target
}

/// Reading on from a later state is reading on further.
proof fn lemma_reads_on(m: demuxer::AacModel, n: nat, k: nat)
    ensures
        reads(reads(m, n), k) == reads(m, n + k),
    decreases k,
{
    if k > 0 {
        lemma_reads_on(m, n, (k - 1) as nat);
    }
}

/// Reading on from the first frame is reading the segment.
proof fn lemma_reads_from_start(m: demuxer::AacModel, n: nat)
    ensures
        reads(m.rewound(), n) == after_packets(m, n),
    decreases n,
{
    if n > 0 {
        lemma_reads_from_start(m, (n - 1) as nat);
    }
}

/// With fewer ID3 bytes used up, a run of packets is read the same.
proof fn lemma_reads_with_less(m: demuxer::AacModel, less: int, total: nat, k: nat)
    requires
        m.valid(),
        0 <= less <= m.consumed,
        holds_packets(m, total),
        k <= total,
    ensures
        ({
            let l = reads(demuxer::AacModel { consumed: less, ..m }, k);
            let full = reads(m, k);
            &&& full.valid()
            &&& l == (demuxer::AacModel { consumed: l.consumed, ..full })
            &&& 0 <= l.consumed <= full.consumed
            &&& l.next().1 == full.next().1
        }),
    decreases k,
{
    if k > 0 {
        let j = (k - 1) as nat;
        lemma_reads_with_less(m, less, total, j);
        assert(reads(m, j).next().1 is Ok);
        lemma_next(reads(m, j));
        lemma_next_with_less(
            reads(m, j),
            reads(demuxer::AacModel { consumed: less, ..m }, j).consumed,
        );
    }
    assert(k < total ==> reads(m, k).next().1 is Ok);
    lemma_next_with_less(
        reads(m, k),
        reads(demuxer::AacModel { consumed: less, ..m }, k).consumed,
    );
}

/// The packets of a freshly opened segment are those from its first frame on.
proof fn lemma_fresh_reads(m: demuxer::AacModel, total: nat, k: nat)
    requires
        fresh(m),
        holds_packets(m, total),
        k <= total,
    ensures
        after_packets(m, k).next().1 == reads(m, k).next().1,
        holds_packets(m.rewound(), total),
        readable(m, total),
{
    assert(m.rewound() == (demuxer::AacModel { consumed: 0, ..m }));
    assert forall|i: nat| i <= total implies (#[trigger] after_packets(m, i)).next().1 == reads(
        m,
        i,
    ).next().1 by {
        lemma_reads_with_less(m, 0, total, i);
        lemma_reads_from_start(m, i);
    }
    assert forall|i: nat| i < total implies (#[trigger] reads(m.rewound(), i)).next().1 is Ok by {
        lemma_reads_from_start(m, i);
        assert(after_packets(m, i).next().1 == reads(m, i).next().1);
    }
    assert forall|i: nat| i < total implies (#[trigger] after_packets(m, i)).next().1 is Ok by {
        assert(after_packets(m, i).next().1 == reads(m, i).next().1);
    }
    lemma_reads_from_start(m, total);
    assert(after_packets(m, total).next().1 == reads(m, total).next().1);
}

/// Whatever the state of a segment, mid-way or at its end: a seek lands on the
/// last packet at or before the target, or on the first, and reading on gives
/// exactly the packets that a freshly opened segment gives from that one on, and
/// its end.
pub proof fn law_reading_on_after_a_seek(
    opened: demuxer::AacModel,
    state: demuxer::AacModel,
    total: nat,
    target: i64,
    n: nat,
    k: nat,
)
    requires
        fresh(opened),
        holds_packets(opened, total),
        state.rewound() == opened.rewound(),
        lands_on(opened, total, target, n),
        n + k <= total,
    ensures
        state.seek(0, target).1 == Ok::<i64, crate::fault::Fault>(time_behind(opened, n)),
        reads(state.seek(0, target).0, k).next().1 == reads(opened, n + k).next().1,
{
    let start = opened.rewound();
    lemma_fresh_reads(opened, total, n);
    lemma_fresh_reads(opened, total, n + 1);
    lemma_fresh_reads(opened, total, n + k);
    assert(readable(opened, n + 1));
    if n + 1 < total {
        assert(reads(opened, n + 1).next().1 is Ok);
    }
    law_seek_resumes_the_segment(opened, n, target);
    assert(state.seek(0, target) == opened.seek(0, target));
    let there = after_packets(opened, n);
    lemma_packets_valid(opened, n);
    lemma_reads_from_start(opened, n);
    lemma_reads_on(start, n, k);
    lemma_reads_from_start(opened, n + k);
    let rest = (total - n) as nat;
    assert(holds_packets(there, rest)) by {
        assert forall|i: nat| i < rest implies (#[trigger] reads(there, i)).next().1 is Ok by {
            lemma_reads_on(start, n, i);
            assert(reads(start, n + i).next().1 is Ok);
        }
        lemma_reads_on(start, n, rest);
    }
    assert(0 <= there.consumed) by {
        lemma_reads_with_less(start, 0, total, n);
    }
    lemma_reads_with_less(there, 0, rest, k);
}

/// A segment that holds packets has one that a seek to any given time lands on:
/// of the packets at or before the time it is the greatest, and the first where
/// there is none.
pub proof fn law_seek_lands_on_the_greatest(opened: demuxer::AacModel, total: nat, target: i64) -> (n:
    nat)
    requires
        fresh(opened),
        holds_packets(opened, total),
    ensures
        lands_on(opened, total, target, n),
        opened.seek(0, target).1 == Ok::<i64, crate::fault::Fault>(time_behind(opened, n)),
        forall|i: nat|
            i < total && (#[trigger] time_behind(opened, i)) <= target ==> time_behind(opened, i)
                <= time_behind(opened, n) && time_behind(opened, n) <= target,
        (forall|i: nat| i < total ==> (#[trigger] time_behind(opened, i)) > target) ==> n == 0,
{
    lemma_first(opened);
    lemma_fresh_reads(opened, total, 0);
    assert(total > 0);
    let n = lemma_landing(opened, total, target, 0);
    law_reading_on_after_a_seek(opened, opened, total, target, n, 0);
    assert forall|i: nat|
        i < total && (#[trigger] time_behind(opened, i)) <= target implies time_behind(opened, i)
        <= time_behind(opened, n) && time_behind(opened, n) <= target by {
        if i < n {
            lemma_time_order(opened, total, i, n);
        } else if i > n {
            if i > n + 1 {
                lemma_time_order(opened, total, n + 1, i);
            }
        }
    }
    n
}

/// The packets of a segment come in the order of their times.
proof fn lemma_time_order(opened: demuxer::AacModel, total: nat, i: nat, j: nat)
    requires
        fresh(opened),
        holds_packets(opened, total),
        i < j < total,
    ensures
        time_behind(opened, i) < time_behind(opened, j),
{
    lemma_fresh_reads(opened, total, i);
    lemma_fresh_reads(opened, total, j);
    assert(readable(opened, j + 1));
    lemma_later(opened, i, j);
}

/// From a packet at or before the target, or the first, on there is one that a
/// seek lands on.
proof fn lemma_landing(opened: demuxer::AacModel, total: nat, target: i64, i: nat) -> (n: nat)
    requires
        i < total,
        i == 0 || time_behind(opened, i) <= target,
    ensures
        lands_on(opened, total, target, n),
    decreases total - i,
{
    if i + 1 < total && time_behind(opened, i + 1) <= target {
        lemma_landing(opened, total, target, i + 1)
    } else {
        i
    }
}

/// The metadata of a segment's head counts up.
proof fn lemma_head_consumed(s: Seq<u8>, pos: int, consumed: int, seen: Option<i64>)
    requires
        0 <= pos <= s.len(),
        0 <= consumed,
    ensures
        demuxer::head_at(s, pos, consumed, seen) matches Ok(head) ==> 0 <= head.consumed,
    decreases s.len() - pos,
{
    if pos + 3 <= s.len() && s.subrange(pos, pos + 3) == demuxer::id3_mark() {
        id3::lemma_tag_bounds(s, pos + 3, consumed);
        law_metadata_is_bounded(s, pos + 3, consumed);
        let tag = id3::tag_at(s, pos + 3, consumed);
        match tag.out {
            Err(_) => {},
            Ok(None) => {
                lemma_head_consumed(s, tag.end, tag.consumed, seen);
            },
            Ok(Some(t)) => {
                lemma_head_consumed(s, tag.end, tag.consumed, Some(t));
            },
        }
    }
}

/// A segment that was opened stands at its first frame.
pub proof fn law_opened_segments_are_fresh(data: Seq<u8>, clock: Timeline, elapsed_ticks: int)
    ensures
        demuxer::opened(data, clock, elapsed_ticks) matches Ok(m) ==> fresh(m),
{
    demuxer::lemma_head(data, 0, 0, None);
    lemma_head_consumed(data, 0, 0, None);
}

/// Delivered packets stand in strictly increasing order of time.
pub proof fn law_packet_times_increase(m: demuxer::AacModel, i: nat, j: nat)
    requires
        m.valid(),
        i < j,
        readable(m, j + 1),
    ensures
        (after_packets(m, i).next().1->Ok_0).pts < (after_packets(m, j).next().1->Ok_0).pts,
{
    lemma_later(m, i, j);
}

} // verus!
