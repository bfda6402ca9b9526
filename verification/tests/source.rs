use std::collections::VecDeque;

use oxideav_hls::address::unwrap_hls_uri;
use oxideav_hls::discovery::{inspect_playlist, HlsPlaylistInfo};
use oxideav_hls::fault::Fault;
use oxideav_hls::media::{open_media, SegmentEntry};
use oxideav_hls::opening::{open_first, Opening};
use oxideav_hls::packed_audio::demuxer::{open, PackedAac};
use oxideav_hls::packed_audio::timeline::Timeline;
use oxideav_hls::playlist::{MediaPlaylist, MediaSegment};
use oxideav_hls::seconds::Seconds;
use oxideav_hls::segment::{detect, Format, ReadPlan, SegmentView};
use oxideav_hls::source::{
    retry_seek, Attempt, Event, HlsPacketSource, Primer, Seek, SeekRequest, SeekStep, Step,
    MAX_PRIMED_PACKETS,
};
use oxideav_hls::streams::{
    plan_seek, transport_origin, validate_stream_layout, MediaKind, StreamKey,
};

#[derive(Clone, Debug, PartialEq)]
struct FakePacket {
    pts: i64,
    data: Vec<u8>,
}

struct FakeDemuxer {
    packets: VecDeque<FakePacket>,
}

fn seconds(value: f64) -> Seconds {
    Seconds { bits: value.to_bits() }
}

/// A source over synthetic segments: two packets each, ten seconds apart.
struct FakeSource {
    source: HlsPacketSource<FakePacket>,
    current: FakeDemuxer,
    prepared: Option<Result<FakeDemuxer, String>>,
    open_counts: Vec<usize>,
    read_counts: Vec<usize>,
    failing: Option<usize>,
    workers: bool,
}

fn fake_progress(count: usize, pending: VecDeque<FakePacket>) -> HlsPacketSource<FakePacket> {
    let starts = (0..fake_entries(count).len()).map(|i| seconds(i as f64 * 10.0)).collect();
    HlsPacketSource::new(starts, vec![fake_stream()], pending)
}

fn fake_stream() -> StreamKey {
    StreamKey { index: 0, kind: MediaKind::Video, codec: "h264".to_string() }
}

fn fake_entries(count: usize) -> Vec<SegmentEntry> {
    let base = unwrap_hls_uri("hls+https://example.test/vod/index.m3u8").unwrap();
    let media = MediaPlaylist {
        end_list: true,
        i_frames_only: false,
        segments: (0..count)
            .map(|index| MediaSegment {
                uri: format!("{index}.ts"),
                duration: 10.0f32.to_bits(),
                byte_range: None,
                discontinuity: false,
                key_method: None,
                map: None,
            })
            .collect(),
    };
    open_media(&base, &media).unwrap()
}

impl FakeSource {
    fn open_demuxer(&mut self, segment: usize) -> Result<FakeDemuxer, String> {
        self.open_counts[segment] += 1;
        if self.failing == Some(segment) {
            return Err(format!("synthetic segment {segment} open failure"));
        }
        let base = segment as i64 * 10_000;
        Ok(FakeDemuxer {
            packets: VecDeque::from([
                FakePacket { pts: base, data: vec![segment as u8, 0] },
                FakePacket { pts: base + 1_000, data: vec![segment as u8, 1] },
            ]),
        })
    }

    fn new(count: usize, failing: Option<usize>) -> Self {
        Self::with_workers(count, failing, true)
    }

    fn with_workers(count: usize, failing: Option<usize>, workers: bool) -> Self {
        let mut fake = FakeSource {
            source: fake_progress(count, VecDeque::new()),
            current: FakeDemuxer { packets: VecDeque::new() },
            prepared: None,
            open_counts: vec![0; count],
            read_counts: vec![0; count],
            failing,
            workers,
        };
        fake.current = fake.open_demuxer(0).unwrap();
        let mut primer = Primer::new(1);
        while primer.wants_more() {
            match fake.current.packets.pop_front() {
                Some(packet) => {
                    fake.read_counts[0] += 1;
                    primer.feed(packet, 0, true);
                }
                None => break,
            }
        }
        let pending = primer.into_packets();
        assert_eq!(pending.len(), 1);
        assert_eq!(pending[0].pts, 0);
        fake.source = fake_progress(count, pending);
        let step = fake.source.start_readahead();
        fake.follow(step);
        fake
    }

    fn follow(&mut self, step: Step<FakePacket>) {
        self.prepared = None;
        if !self.workers {
            return;
        }
        if let Step::Readahead { index } = step {
            let mut result = self.open_demuxer(index);
            if result.is_ok() {
                self.read_counts[index] += 1;
            }
            if let Ok(demuxer) = &mut result {
                assert_eq!(demuxer.packets.len(), 2);
            }
            self.prepared = Some(result);
            self.source.readahead_started(index);
        }
    }

    fn install(&mut self, index: usize, mut demuxer: FakeDemuxer) {
        let first = demuxer.packets.pop_front();
        self.current = demuxer;
        let step = self.source.step(Event::Prepared { index, first });
        self.follow(step);
    }

    fn next_packet(&mut self) -> Result<FakePacket, String> {
        loop {
            match self.source.step(Event::Asked) {
                Step::Deliver(packet) => return Ok(packet),
                Step::Read => {}
                _ => panic!("asked"),
            }
            let step = match self.current.packets.pop_front() {
                Some(packet) => self.source.step(Event::Packet(packet)),
                None => self.source.step(Event::Ended),
            };
            match step {
                Step::Deliver(packet) => return Ok(packet),
                Step::Finished => return Err("end".to_string()),
                Step::Await { index } => {
                    let demuxer = self.prepared.take().unwrap()?;
                    self.install(index, demuxer);
                }
                Step::Prepare { index } => {
                    let demuxer = self.open_demuxer(index)?;
                    self.install(index, demuxer);
                }
                _ => panic!("ended"),
            }
        }
    }

    fn seek_to(&mut self, stream_index: u32, pts: i64) -> Result<i64, String> {
        let time = seconds(pts as f64 / 1_000.0);
        let request = SeekRequest { stream_index, pts, raw: time, media: time };
        let seek = self.source.seek_to(request).map_err(|fault| format!("{fault:?}"))?;
        assert_eq!(seek.stream, 0);
        match self.open_demuxer(seek.index) {
            Ok(demuxer) => {
                let landed = pts;
                let SeekStep::Done { landed, step } =
                    self.source.seek_attempted(seek, Attempt::Landed(landed))
                else {
                    panic!("landed")
                };
                self.current = demuxer;
                self.follow(step);
                Ok(landed)
            }
            Err(error) => {
                let step = self.source.seek_attempted(seek, Attempt::Failed);
                assert!(matches!(step, SeekStep::Failed));
                Err(error)
            }
        }
    }
}

#[test]
fn readahead_primes_successor_before_current_segment_eof() {
    let mut source = FakeSource::new(3, None);

    assert_eq!(source.read_counts[1], 1);
    assert_eq!(source.open_counts[1], 1);

    assert_eq!(source.next_packet().unwrap().data, vec![0, 0]);
    assert_eq!(source.next_packet().unwrap().data, vec![0, 1]);
    assert_eq!(source.next_packet().unwrap().data, vec![1, 0]);
    assert_eq!(
        source.open_counts[1],
        1,
        "segment 1 should be installed from readahead, not reopened at EOF"
    );
}

#[test]
fn readahead_error_is_deferred_until_successor_is_needed() {
    let mut source = FakeSource::new(2, Some(1));

    assert_eq!(source.next_packet().unwrap().data, vec![0, 0]);
    assert_eq!(source.next_packet().unwrap().data, vec![0, 1]);

    let error = source.next_packet().unwrap_err();
    assert!(
        error
            .to_string()
            .contains("synthetic segment 1 open failure"),
        "unexpected deferred readahead error: {error}"
    );
    source.failing = None;
    assert_eq!(source.next_packet().unwrap().data, vec![1, 0]);
    assert_eq!(source.open_counts[1], 2);
}

#[test]
fn seek_replaces_readahead_with_landed_segments_successor() {
    let mut source = FakeSource::new(4, None);
    assert_eq!(source.read_counts[1], 1);

    assert_eq!(source.seek_to(0, 25_000).unwrap(), 25_000);
    assert_eq!(source.source.current_segment(), 2);
    assert_eq!(source.source.readahead(), Some(3));
    assert_eq!(source.read_counts[3], 1);
    assert_eq!(source.open_counts[3], 1);
    assert_eq!(source.seek_to(7, 25_000).unwrap_err(), "NoSuchStream");
}

#[test]
fn failed_seeks_leave_the_source_as_it_was() {
    let mut source = FakeSource::new(4, Some(3));
    assert_eq!(source.next_packet().unwrap().data, vec![0, 0]);
    let opened = source.open_counts.clone();
    assert_eq!(source.seek_to(7, 35_000).unwrap_err(), "NoSuchStream");
    assert_eq!(source.open_counts, opened);
    assert!(source.seek_to(0, 35_000).unwrap_err().contains("segment 3"));
    assert_eq!(source.source.current_segment(), 0);
    assert_eq!(source.source.readahead(), Some(1));
    assert_eq!(source.next_packet().unwrap().data, vec![0, 1]);
    assert_eq!(source.next_packet().unwrap().data, vec![1, 0]);
    assert_eq!(source.open_counts[1], 1);
}

#[test]
fn seeks_settle_in_one_of_two_segments() {
    let fresh = || {
        let mut source = fake_progress(4, VecDeque::from([FakePacket { pts: 0, data: vec![] }]));
        source.readahead_started(1);
        source
    };
    let time = seconds(25.0);
    let request = SeekRequest { stream_index: 0, pts: 25_000, raw: time, media: time };
    let mut source = fresh();
    let seek = source.seek_to(request).unwrap();
    assert_eq!(seek, Seek { stream: 0, pts: 25_000, index: 2, retry: false });
    let SeekStep::Try(again) = source.seek_attempted(seek, Attempt::Landed(25_001)) else {
        panic!("retry")
    };
    assert_eq!(again, Seek { stream: 0, pts: 25_000, index: 1, retry: true });
    assert_eq!((source.current_segment(), source.readahead()), (0, Some(1)));
    assert!(matches!(source.seek_attempted(again, Attempt::Failed), SeekStep::Failed));
    assert_eq!((source.current_segment(), source.readahead()), (0, Some(1)));
    let SeekStep::Done { landed, step } = source.seek_attempted(again, Attempt::Landed(25_002))
    else {
        panic!("done")
    };
    assert_eq!(landed, 25_002);
    assert!(matches!(step, Step::Readahead { index: 2 }));
    assert_eq!((source.current_segment(), source.readahead()), (1, None));
    assert!(matches!(source.step(Event::Asked), Step::Read));
    let mut source = fresh();
    assert!(matches!(
        source.seek_attempted(seek, Attempt::Landed(25_000)),
        SeekStep::Done { landed: 25_000, step: Step::Readahead { index: 3 } }
    ));
    assert_eq!(source.current_segment(), 2);
    assert_eq!(source.accepts(&[fake_stream()]), Ok(()));
    assert_eq!(source.accepts(&[]), Err(Fault::StreamCountChanged));
}

#[test]
fn delivery_crosses_all_segments_with_and_without_readahead() {
    for workers in [true, false] {
        let mut source = FakeSource::with_workers(5, None, workers);
        assert_eq!(source.source.readahead().is_some(), workers);
        let mut data = Vec::new();
        while let Ok(packet) = source.next_packet() {
            data.push(packet.data);
        }
        let expected: Vec<Vec<u8>> =
            (0..5).flat_map(|s| [vec![s, 0], vec![s, 1]]).collect();
        assert_eq!(data, expected);
        assert_eq!(source.open_counts, vec![1; 5]);
    }
    let starts = vec![seconds(0.0), seconds(10.0)];
    let mut plain: HlsPacketSource<u8> =
        HlsPacketSource::new(starts, vec![fake_stream()], VecDeque::from([7]));
    assert!(matches!(plain.step(Event::Asked), Step::Deliver(7)));
    assert!(matches!(plain.step(Event::Asked), Step::Read));
    assert!(matches!(plain.step(Event::Ended), Step::Prepare { index: 1 }));
    assert!(matches!(plain.step(Event::Prepared { index: 1, first: None }), Step::Continue));
    assert!(matches!(plain.step(Event::Asked), Step::Read));
    assert!(matches!(plain.step(Event::Ended), Step::Finished));
}

#[test]
fn priming_stops_at_all_streams_or_the_bound() {
    let mut primer = Primer::new(2);
    primer.feed('a', 0, true);
    primer.feed('b', 0, true);
    primer.feed('c', 1, false);
    assert!(primer.wants_more());
    primer.feed('d', 1, true);
    assert!(!primer.wants_more());
    assert_eq!(primer.into_packets(), VecDeque::from(['a', 'b', 'c', 'd']));
    let mut silent = Primer::new(1);
    let mut read = 0;
    while silent.wants_more() {
        silent.feed(read, 0, false);
        read += 1;
    }
    assert_eq!(read, MAX_PRIMED_PACKETS);
    assert_eq!(MAX_PRIMED_PACKETS, 256);
    assert!(!Primer::<u8>::new(0).wants_more());
}

#[test]
fn origin_is_the_earliest_time() {
    let at = |value: f64| Some(seconds(value));
    assert_eq!(
        transport_origin(&[at(2.0), None, at(-1.5), at(f64::NAN)], &[at(-9.0)]),
        Ok(seconds(-1.5))
    );
    assert_eq!(transport_origin(&[at(0.0), at(-0.0)], &[]), Ok(seconds(-0.0)));
    assert_eq!(
        transport_origin(&[None, at(f64::INFINITY)], &[None, at(3.0), at(1.0)]),
        Ok(seconds(1.0))
    );
    assert_eq!(transport_origin(&[None], &[None]), Err(Fault::NoTimestamps));
}

fn key(index: u32, kind: MediaKind, codec: &str) -> StreamKey {
    StreamKey { index, kind, codec: codec.to_string() }
}

#[test]
fn layouts_must_agree() {
    let one = [key(0, MediaKind::Video, "h264"), key(1, MediaKind::Audio, "aac")];
    assert_eq!(validate_stream_layout(&one, &one), Ok(()));
    assert_eq!(validate_stream_layout(&one, &one[..1]), Err(Fault::StreamCountChanged));
    for other in [
        key(2, MediaKind::Audio, "aac"),
        key(1, MediaKind::Data, "aac"),
        key(1, MediaKind::Audio, "mp3"),
    ] {
        let changed = [key(0, MediaKind::Video, "h264"), other];
        assert_eq!(validate_stream_layout(&one, &changed), Err(Fault::StreamLayoutChanged));
    }
}

#[test]
fn seeks_go_by_video_and_retry_the_segment_before() {
    let both = [key(4, MediaKind::Audio, "aac"), key(9, MediaKind::Video, "h264")];
    assert_eq!(plan_seek(&both, 4, seconds(1.0)), Ok(9));
    assert_eq!(plan_seek(&both[..1], 4, seconds(1.0)), Ok(4));
    assert_eq!(plan_seek(&both, 5, seconds(1.0)), Err(Fault::NoSuchStream));
    assert_eq!(
        plan_seek(&both, 4, seconds(f64::INFINITY)),
        Err(Fault::SeekTargetNotFinite)
    );
    assert_eq!(retry_seek(3, 101, 100), Some(2));
    assert_eq!(retry_seek(3, 100, 100), None);
    assert_eq!(retry_seek(0, 101, 100), None);
}

fn adts() -> Vec<u8> {
    let mut b = vec![0xff, 0xf1, 0x40 | (3 << 2), 2 << 6, 11 >> 3, ((11 & 7) << 5) | 0x1f, 0xfc];
    b.resize(11, 0);
    b
}

fn segment(pts: u64, frames: usize) -> Vec<u8> {
    let mut b = b"ID3\x03\0\0\0\0\0\x3fPRIV\0\0\0\x35\0\0".to_vec();
    b.extend(b"com.apple.streaming.transportStreamTimestamp\0");
    b.extend(pts.to_be_bytes());
    for _ in 0..frames {
        b.extend(adts());
    }
    b
}

fn read_view(entry: &SegmentEntry, resource: &[u8]) -> Vec<u8> {
    let mut view = SegmentView::new(0, entry.span, resource.len() as u64).unwrap();
    let mut out = Vec::new();
    while let ReadPlan::FromResource { offset, length } = view.read_plan(7) {
        out.extend(&resource[offset as usize..(offset + length) as usize]);
        view.advance(length);
    }
    out
}

struct AudioSource {
    entries: Vec<SegmentEntry>,
    starts: Vec<f64>,
    resource: Vec<u8>,
    clock: Timeline,
    source: HlsPacketSource<i64>,
    current: Option<PackedAac>,
    origin: f64,
}

impl AudioSource {
    fn open_segment(&mut self, index: usize) -> PackedAac {
        let bytes = read_view(&self.entries[index], &self.resource);
        assert_eq!(detect(&bytes, false), Ok(Format::PackedAudio));
        let start = self.starts[index];
        let first = match self.clock.first_start() {
            Some(first) => f64::from_bits(first.bits),
            None => start,
        };
        let elapsed = ((start - first) * 90_000.0).round() as i128;
        open(bytes, &mut self.clock, seconds(start), elapsed).unwrap()
    }

    fn next_packet(&mut self) -> Result<i64, Fault> {
        loop {
            if let Step::Deliver(pts) = self.source.step(Event::Asked) {
                return Ok(pts);
            }
            let step = match self.current.as_mut().unwrap().next_packet() {
                Ok(packet) => self.source.step(Event::Packet(packet.pts)),
                Err(Fault::Eof) => self.source.step(Event::Ended),
                Err(fault) => return Err(fault),
            };
            match step {
                Step::Deliver(pts) => return Ok(pts),
                Step::Finished => return Err(Fault::Eof),
                Step::Prepare { index } => {
                    let mut demuxer = self.open_segment(index);
                    let first = demuxer.next_packet().ok().map(|p| p.pts);
                    self.current = Some(demuxer);
                    self.source.step(Event::Prepared { index, first });
                }
                _ => panic!("step"),
            }
        }
    }

    fn seek_to(&mut self, pts: i64) -> i64 {
        let raw = pts as f64 / 90_000.0;
        let media = seconds((raw - self.origin).max(0.0));
        let request = SeekRequest { stream_index: 0, pts, raw: seconds(raw), media };
        let mut seek = self.source.seek_to(request).unwrap();
        loop {
            let mut demuxer = self.open_segment(seek.index);
            let landed = demuxer.seek_to(seek.stream, seek.pts).unwrap();
            match self.source.seek_attempted(seek, Attempt::Landed(landed)) {
                SeekStep::Try(again) => seek = again,
                SeekStep::Done { landed, .. } => {
                    self.current = Some(demuxer);
                    return landed;
                }
                SeekStep::Failed => panic!("seek"),
            }
        }
    }
}

#[test]
fn packed_aac_http_ranges_boundaries_wrap_and_repeated_seeks() {
    let wrap = 1u64 << 33;
    let first = wrap - 3840;
    let a = segment(first, 2);
    let b = segment(0, 2);
    let c = segment(3840, 2);
    let mut resource = vec![99; 13];
    resource.extend(&a);
    resource.extend(&b);
    resource.extend(&c);
    resource.extend([99; 11]);
    let media = format!("#EXTM3U\n#EXT-X-TARGETDURATION:1\n#EXT-X-BYTERANGE:{}@13\n#EXTINF:0.042666667,\nopaque\n#EXT-X-BYTERANGE:{}\n#EXTINF:0.042666667,\nopaque\n#EXT-X-BYTERANGE:{}\n#EXTINF:0.042666667,\nopaque\n#EXT-X-ENDLIST\n", a.len(), b.len(), c.len());
    let base = unwrap_hls_uri("hls+http://127.0.0.1:8080/audio.m3u8").unwrap();
    assert!(matches!(
        inspect_playlist(&base, media.as_bytes(), 720).unwrap(),
        HlsPlaylistInfo::Media { .. }
    ));
    let Opening::Play(playlist) = open_first(&base, media.as_bytes(), 720).unwrap() else {
        panic!("media")
    };
    let entries = open_media(&base, &playlist).unwrap();
    assert_eq!(read_view(&entries[0], &resource), a);
    assert_eq!(read_view(&entries[1], &resource), b);
    assert_eq!(read_view(&entries[2], &resource), c);
    assert_eq!(entries[2].url.text, "http://127.0.0.1:8080/opaque");
    let mut starts = vec![0.0f64];
    for entry in &entries[..2] {
        starts.push(starts[starts.len() - 1] + f64::from(f32::from_bits(entry.duration)));
    }
    let start_times = starts.iter().map(|start| seconds(*start)).collect();
    let streams = vec![key(0, MediaKind::Audio, "aac")];
    let mut source = AudioSource {
        entries,
        starts,
        resource,
        clock: Timeline::new(),
        source: HlsPacketSource::new(start_times, streams, VecDeque::new()),
        current: None,
        origin: 0.0,
    };
    source.current = Some(source.open_segment(0));
    assert_eq!(source.current.as_ref().unwrap().start_time(), first as i64);
    let start = seconds(first as f64 / 90_000.0);
    source.origin = f64::from_bits(transport_origin(&[Some(start)], &[]).unwrap().bits);
    for i in 0..6 {
        assert_eq!(source.next_packet().unwrap(), first as i64 + i * 1920);
    }
    assert!(matches!(source.next_packet(), Err(Fault::Eof)));
    for (target, landed) in [
        (wrap + 2000, wrap + 1920),
        (first, first),
        (wrap + 4000, wrap + 3840),
    ] {
        assert_eq!(source.seek_to(target as i64), landed as i64);
        assert_eq!(source.next_packet().unwrap(), landed as i64);
    }
    loop {
        match source.next_packet() {
            Ok(_) => {}
            Err(Fault::Eof) => break,
            Err(error) => panic!("failed to drain final segment: {error:?}"),
        }
    }
}
