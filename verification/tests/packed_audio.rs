use oxideav_hls::bytes::ByteReader;
use oxideav_hls::fault::{AdtsFault, Fault};
use oxideav_hls::packed_audio::adts::AdtsConfig;
use oxideav_hls::packed_audio::demuxer::{open, PackedAac, CLOCK_HZ};
use oxideav_hls::packed_audio::id3::{self, be_size, deunsync, synchsafe, MAX_METADATA_BYTES, WRAP};
use oxideav_hls::packed_audio::timeline::Timeline;
use oxideav_hls::seconds::Seconds;

fn sync_size(n: usize) -> [u8; 4] {
    [
        ((n >> 21) & 127) as u8,
        ((n >> 14) & 127) as u8,
        ((n >> 7) & 127) as u8,
        (n & 127) as u8,
    ]
}

fn frame(id: &[u8; 4], payload: &[u8], version: u8, flags: u8) -> Vec<u8> {
    let mut b = id.to_vec();
    b.extend(if version == 4 {
        sync_size(payload.len())
    } else {
        (payload.len() as u32).to_be_bytes()
    });
    b.extend([0, flags]);
    b.extend(payload);
    b
}

fn tag(body: &[u8], version: u8, flags: u8) -> Vec<u8> {
    let mut b = b"ID3".to_vec();
    b.extend([version, 0, flags]);
    b.extend(sync_size(body.len()));
    b.extend(body);
    if flags & 0x10 != 0 && version == 4 {
        b.extend(b"3DI");
        b.extend([version, 0, flags]);
        b.extend(sync_size(body.len()));
    }
    b
}

fn timestamp_payload(pts: u64) -> Vec<u8> {
    let mut b = b"com.apple.streaming.transportStreamTimestamp\0".to_vec();
    b.extend(pts.to_be_bytes());
    b
}

fn timestamp_tag(pts: u64) -> Vec<u8> {
    tag(&frame(b"PRIV", &timestamp_payload(pts), 3, 0), 3, 0)
}

fn adts(rate: u8, channels: u8, crc: bool, blocks: u8) -> Vec<u8> {
    let n: usize = if crc { 13 } else { 11 };
    let mut b = vec![
        0xff,
        if crc { 0xf0 } else { 0xf1 },
        0x40 | (rate << 2) | (channels >> 2),
        ((channels & 3) << 6) | ((n >> 11) as u8),
        (n >> 3) as u8,
        ((n & 7) as u8) << 5 | 0x1f,
        0xfc | blocks,
    ];
    b.resize(n, 0);
    b
}

fn segment(pts: u64, rate: u8, frames: usize) -> Vec<u8> {
    let mut b = timestamp_tag(pts);
    for _ in 0..frames {
        b.extend(adts(rate, 2, false, 0));
    }
    b
}

fn seconds(value: f64) -> Seconds {
    Seconds { bits: value.to_bits() }
}

fn demux(bytes: Vec<u8>) -> Result<PackedAac, Fault> {
    open(bytes, &mut Timeline::new(), seconds(0.0), 0)
}

fn read_tag(bytes: Vec<u8>) -> Result<Option<i64>, Fault> {
    let mut input = ByteReader::new(bytes);
    input.skip_exact(3)?;
    id3::read(&mut input, &mut 0)
}

fn unwrap_at(t: &mut Timeline, raw: i64, start: f64, config: AdtsConfig) -> Result<i64, Fault> {
    let first = match t.first_start() {
        Some(first) => f64::from_bits(first.bits),
        None => start,
    };
    let elapsed = ((start - first) * 90_000.0).round() as i128;
    t.unwrap(raw, seconds(start), elapsed, config)
}

#[test]
fn adts_packets_preserve_payload_and_transport_origin_without_rounding_drift() {
    for rate in [3, 4, 8] {
        let mut d = demux(segment(9_000_001, rate, 1000)).unwrap();
        let hz = d.config().sample_rate as i64;
        assert_eq!(d.start_time(), 9_000_001);
        assert_eq!(d.channels(), Some(2));
        for i in 0..1000 {
            let p = d.next_packet().unwrap();
            assert_eq!(p.data, adts(rate, 2, false, 0));
            let pts = 9_000_001 + i * 1024 * 90_000 / hz;
            let end = 9_000_001 + (i + 1) * 1024 * 90_000 / hz;
            assert_eq!((p.pts, p.dts, p.duration), (pts, pts, end - pts));
            assert!(p.keyframe);
        }
        assert_eq!(CLOCK_HZ, 90_000);
        assert!(matches!(d.next_packet(), Err(Fault::Eof)));
    }
}

#[test]
fn crc_multiblock_and_channel_configuration_are_preserved() {
    for (configuration, channels) in [(0, None), (1, Some(1)), (7, Some(8))] {
        let mut bytes = timestamp_tag(90_000);
        let audio = adts(3, configuration, true, 2);
        bytes.extend(&audio);
        let mut d = demux(bytes).unwrap();
        assert_eq!(d.channels(), channels);
        let p = d.next_packet().unwrap();
        assert_eq!(p.data, audio);
        assert_eq!(p.duration, 5760);
    }
}

#[test]
fn seeks_land_on_frame_before_target_and_can_repeat_after_eof() {
    let mut d = demux(segment(900_000, 3, 4)).unwrap();
    for (target, expected) in [
        (902_000, 901_920),
        (0, 900_000),
        (999_999, 905_760),
        (903_840, 903_840),
    ] {
        assert_eq!(d.seek_to(0, target).unwrap(), expected);
        assert_eq!(d.next_packet().unwrap().pts, expected);
    }
    assert!(d.seek_to(1, 900_000).is_err());
}

#[test]
fn timeline_unwraps_deterministically_across_seeks_and_multiple_wraps() {
    let mut t = Timeline::new();
    let c = AdtsConfig {
        mpeg2: false,
        profile: 1,
        sample_rate: 48000,
        channels: 2,
    };
    assert_eq!(unwrap_at(&mut t, WRAP - 90_000, 0.0, c).unwrap(), WRAP - 90_000);
    assert_eq!(unwrap_at(&mut t, 90_000, 2.0, c).unwrap(), WRAP + 90_000);
    assert_eq!(
        unwrap_at(&mut t, 0, 1.0 + WRAP as f64 / 90_000.0, c).unwrap(),
        2 * WRAP
    );
    assert_eq!(unwrap_at(&mut t, 0, 1.0, c).unwrap(), WRAP);
    assert_eq!(unwrap_at(&mut t, WRAP - 90_000, 0.0, c).unwrap(), WRAP - 90_000);
    assert!(unwrap_at(&mut t, 0, 1.0, AdtsConfig { sample_rate: 44100, ..c }).is_err());
}

#[test]
fn id3_versions_unknown_frames_padding_extended_headers_and_footer() {
    for v in [3, 4] {
        let mut body = if v == 3 {
            vec![0, 0, 0, 6, 0, 0, 0, 0, 0, 0]
        } else {
            vec![0, 0, 0, 6, 1, 0]
        };
        body.extend(frame(b"TXXX", &[1; 180], v, 0));
        body.extend(frame(b"PRIV", &timestamp_payload(123_456), v, 0));
        body.extend([0; 10]);
        assert_eq!(read_tag(tag(&body, v, 0x40)).unwrap(), Some(123_456));
    }
    let body = frame(b"PRIV", &timestamp_payload(1), 4, 0);
    assert_eq!(read_tag(tag(&body, 4, 0x10)).unwrap(), Some(1));
}

fn unsync(b: &[u8]) -> Vec<u8> {
    let mut out = Vec::new();
    for byte in b {
        out.push(*byte);
        if *byte == 255 {
            out.push(0);
        }
    }
    out
}

#[test]
fn unsynchronised_priv_and_grouping_data_length_fields() {
    let payload = timestamp_payload(0x1_ff_ff_ff_ff);
    let v3 = frame(b"PRIV", &payload, 3, 0);
    assert_eq!(
        read_tag(tag(&unsync(&v3), 3, 0x80)).unwrap(),
        Some(WRAP - 1)
    );
    for flags in [0, 0x80] {
        let mut p = vec![1];
        p.extend(sync_size(payload.len()));
        p.extend(&payload);
        let v4 = frame(b"PRIV", &unsync(&p), 4, 0x43);
        assert_eq!(read_tag(tag(&v4, 4, flags)).unwrap(), Some(WRAP - 1));
    }
}

#[test]
fn consecutive_and_interleaved_metadata_do_not_become_audio_packets() {
    let empty_tag = tag(&frame(b"TXXX", b"metadata", 3, 0), 3, 0);
    let mut bytes = empty_tag.clone();
    bytes.extend(segment(42, 3, 1));
    bytes.extend(empty_tag);
    bytes.extend(adts(3, 2, false, 0));
    let mut d = demux(bytes).unwrap();
    assert_eq!(d.next_packet().unwrap().pts, 42);
    assert_eq!(d.next_packet().unwrap().pts, 42 + 1920);
    assert!(matches!(d.next_packet(), Err(Fault::Eof)));
}

#[test]
fn malformed_or_unsupported_metadata_and_audio_fail_explicitly() {
    let mut invalid = vec![
        adts(3, 2, false, 0), // missing ID3 timestamp
        timestamp_tag(1),     // no audio
        segment(1 << 33, 3, 1),
        segment(0, 15, 1), // reserved frequency
    ];
    let mut conflict = timestamp_tag(1);
    conflict.extend(segment(2, 3, 1));
    invalid.push(conflict);
    let mut unknown = timestamp_tag(1);
    unknown.extend(b"unsupported codec");
    invalid.push(unknown);
    let mut truncated = segment(0, 3, 1);
    truncated.pop();
    invalid.push(truncated);
    let mut bad_size = segment(0, 3, 1);
    bad_size[6] = 0x80;
    invalid.push(bad_size);
    let mut excessive = b"ID3\x03\0\0".to_vec();
    excessive.extend(sync_size(2 * 1024 * 1024));
    invalid.push(excessive);
    let mut compressed = tag(&frame(b"PRIV", &timestamp_payload(1), 4, 8), 4, 0);
    compressed.extend(adts(3, 2, false, 0));
    invalid.push(compressed);
    for bytes in invalid {
        assert!(demux(bytes).is_err());
    }

    let mut bytes = segment(0, 3, 1);
    bytes.extend(adts(4, 2, false, 0));
    let mut d = demux(bytes).unwrap();
    d.next_packet().unwrap();
    assert!(d.next_packet().is_err());
    let mut bytes = segment(0, 3, 1);
    bytes.extend([255, 241]);
    let mut d = demux(bytes).unwrap();
    d.next_packet().unwrap();
    assert!(d.next_packet().is_err());
}

fn open_fault(bytes: Vec<u8>) -> Fault {
    demux(bytes).unwrap_err()
}

#[test]
fn each_fault_of_a_segment_head_is_told_apart() {
    assert_eq!(open_fault(adts(3, 2, false, 0)), Fault::MissingTimestamp);
    assert_eq!(open_fault(timestamp_tag(1)), Fault::NoAudio);
    assert_eq!(open_fault(Vec::new()), Fault::NoAudio);
    assert_eq!(open_fault(b"ID".to_vec()), Fault::Truncated);
    assert_eq!(open_fault(segment(1 << 33, 3, 1)), Fault::MalformedId3);
    assert_eq!(
        open_fault(segment(0, 15, 1)),
        Fault::AdtsHeader(AdtsFault::ReservedSampleRate)
    );
    let mut conflict = timestamp_tag(1);
    conflict.extend(segment(2, 3, 1));
    assert_eq!(open_fault(conflict), Fault::ConflictingSegmentTimestamps);
    let mut agree = timestamp_tag(2);
    agree.extend(segment(2, 3, 1));
    assert_eq!(demux(agree).unwrap().start_time(), 2);
    let mut unknown = timestamp_tag(1);
    unknown.extend(b"unsupported codec");
    assert_eq!(open_fault(unknown), Fault::NotAdts);
    let mut truncated = segment(0, 3, 1);
    truncated.pop();
    assert_eq!(open_fault(truncated), Fault::Truncated);
    let mut version = segment(0, 3, 1);
    version[3] = 2;
    assert_eq!(open_fault(version), Fault::Id3Version);
    let mut excessive = b"ID3\x03\0\0".to_vec();
    excessive.extend(sync_size(2 * 1024 * 1024));
    assert_eq!(open_fault(excessive), Fault::Id3TooLarge);
    let mut compressed = tag(&frame(b"PRIV", &timestamp_payload(1), 4, 8), 4, 0);
    compressed.extend(adts(3, 2, false, 0));
    assert_eq!(open_fault(compressed), Fault::PrivEncoding);
    let mut twice = frame(b"PRIV", &timestamp_payload(1), 3, 0);
    twice.extend(frame(b"PRIV", &timestamp_payload(2), 3, 0));
    assert_eq!(open_fault(tag(&twice, 3, 0)), Fault::ConflictingTagTimestamps);
}

#[test]
fn adts_headers_are_read_by_their_fields() {
    for (index, rate) in [
        96000, 88200, 64000, 48000, 44100, 32000, 24000, 22050, 16000, 12000, 11025, 8000, 7350,
    ]
    .into_iter()
    .enumerate()
    {
        let mut bytes = timestamp_tag(0);
        bytes.extend(adts(index as u8, 6, false, 0));
        let d = demux(bytes).unwrap();
        assert_eq!(
            d.config(),
            AdtsConfig { mpeg2: false, profile: 1, sample_rate: rate, channels: 6 }
        );
    }
    let mut short = timestamp_tag(0);
    let mut audio = adts(3, 2, false, 0);
    audio[3] = 0x80;
    audio[4] = 0;
    audio[5] = 0x1f;
    short.extend(&audio);
    assert_eq!(
        open_fault(short),
        Fault::AdtsHeader(AdtsFault::FrameLengthTooSmall)
    );
    let mut empty = timestamp_tag(0);
    audio[5] = 0xff;
    empty.extend(&audio);
    assert_eq!(open_fault(empty), Fault::AdtsFrameLength);
    let mut mpeg2 = timestamp_tag(0);
    let mut audio = adts(3, 2, false, 0);
    audio[1] |= 8;
    mpeg2.extend(&audio);
    assert!(demux(mpeg2).unwrap().config().mpeg2);
}

#[test]
fn configuration_changes_are_told_apart() {
    let mut bytes = segment(0, 3, 1);
    bytes.extend(adts(4, 2, false, 0));
    let mut d = demux(bytes).unwrap();
    d.next_packet().unwrap();
    assert_eq!(d.next_packet().unwrap_err(), Fault::ConfigChangedWithinSegment);
    let mut clock = Timeline::new();
    open(segment(0, 3, 1), &mut clock, seconds(0.0), 0).unwrap();
    assert_eq!(
        open(segment(0, 4, 1), &mut clock, seconds(1.0), 90_000).unwrap_err(),
        Fault::ConfigChangedBetweenSegments
    );
    assert_eq!(
        demux(segment(0, 3, 1)).unwrap().seek_to(1, 0).unwrap_err(),
        Fault::NoSuchAudioStream
    );
}

#[test]
fn deunsync_undoes_unsync() {
    for bytes in [vec![], vec![255], vec![255, 0, 255, 255, 7], vec![0, 255, 0, 0]] {
        assert_eq!(deunsync(&unsync(&bytes)), bytes);
    }
    assert_eq!(deunsync(&[255, 0, 0, 255, 1]), vec![255, 0, 255, 1]);
}

#[test]
fn sizes_round_trip() {
    for n in [0, 1, 127, 128, 16_384, 2_097_152, 268_435_455] {
        assert_eq!(synchsafe(&sync_size(n)), Ok(n));
    }
    assert_eq!(synchsafe(&[0, 0, 128, 0]), Err(Fault::MalformedId3));
    assert_eq!(synchsafe(&[0, 0, 0]), Err(Fault::MalformedId3));
    assert_eq!(be_size(&[1, 2, 3, 4]), Ok(0x01020304));
    assert_eq!(be_size(&[1, 2, 3]), Err(Fault::MalformedId3));
}

#[test]
fn metadata_is_bounded_over_a_whole_scan() {
    let filler = tag(&vec![0; MAX_METADATA_BYTES - 200], 3, 0);
    let mut within = filler.clone();
    within.extend(segment(5, 3, 1));
    assert_eq!(demux(within).unwrap().start_time(), 5);
    let mut beyond = filler.clone();
    beyond.extend(tag(&vec![0; 200], 3, 0));
    beyond.extend(segment(5, 3, 1));
    assert_eq!(open_fault(beyond), Fault::Id3TooLarge);
    let mut later = segment(5, 3, 1);
    later.extend(&filler);
    later.extend(adts(3, 2, false, 0));
    later.extend(&filler);
    let mut d = demux(later).unwrap();
    d.next_packet().unwrap();
    assert_eq!(d.next_packet().unwrap().pts, 5 + 1920);
    assert_eq!(d.next_packet().unwrap_err(), Fault::Id3TooLarge);
    assert_eq!(d.seek_to(0, 5).unwrap(), 5);
}

#[test]
fn each_packet_is_found_by_its_own_time() {
    let mut d = demux(segment(1_000, 4, 50)).unwrap();
    let mut times = Vec::new();
    while let Ok(p) = d.next_packet() {
        times.push(p.pts);
    }
    assert_eq!(times.len(), 50);
    for pair in times.windows(2) {
        assert!(pair[0] < pair[1]);
        assert_eq!(d.seek_to(0, pair[1] - 1).unwrap(), pair[0]);
    }
    for t in times {
        assert_eq!(d.seek_to(0, t).unwrap(), t);
        assert_eq!(d.next_packet().unwrap().pts, t);
    }
}

#[test]
fn reading_on_after_a_seek_gives_the_segments_packets() {
    let title = tag(&frame(b"TXXX", b"metadata", 3, 0), 3, 0);
    let mut bytes = segment(1_000, 4, 3);
    bytes.extend(&title);
    bytes.extend(adts(4, 2, false, 1));
    bytes.extend(&title);
    bytes.extend(adts(4, 2, true, 0));
    let packets = |d: &mut PackedAac| {
        let mut all = Vec::new();
        loop {
            match d.next_packet() {
                Ok(p) => all.push((p.pts, p.duration, p.data)),
                Err(fault) => {
                    assert_eq!(fault, Fault::Eof);
                    return all;
                }
            }
        }
    };
    let fresh = packets(&mut demux(bytes.clone()).unwrap());
    assert_eq!(fresh.len(), 5);
    let mut d = demux(bytes).unwrap();
    for target in (0..14_000).step_by(97) {
        let n = fresh.iter().rposition(|p| p.0 <= target).unwrap_or(0);
        for skipped in 0..2 {
            assert_eq!(d.seek_to(0, target).unwrap(), fresh[n].0);
            if skipped == 1 {
                d.next_packet().unwrap();
            }
            assert_eq!(packets(&mut d), fresh[n + skipped..]);
        }
    }
}

#[test]
fn reopening_out_of_order_keeps_the_clock() {
    let mut clock = Timeline::new();
    let first = (WRAP - 1920) as u64;
    let a = open(segment(first, 3, 1), &mut clock, seconds(0.0), 0).unwrap();
    let c = open(segment(1920, 3, 1), &mut clock, seconds(0.042), 3840).unwrap();
    let b = open(segment(0, 3, 1), &mut clock, seconds(0.021), 1920).unwrap();
    let again = open(segment(first, 3, 1), &mut clock, seconds(0.0), 0).unwrap();
    assert_eq!(a.start_time(), WRAP - 1920);
    assert_eq!(b.start_time(), WRAP);
    assert_eq!(c.start_time(), WRAP + 1920);
    assert_eq!(again.start_time(), WRAP - 1920);
    assert_eq!(
        clock.unwrap(0, seconds(0.0), i128::from(i64::MAX), a.config()).unwrap_err(),
        Fault::TimestampOverflow
    );
}
