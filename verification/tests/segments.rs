use oxideav_hls::address::{unwrap_hls_uri, HlsUrl};
use oxideav_hls::fault::{Class, Fault, Role};
use oxideav_hls::maps::{MapCache, MAX_MAPS, MAX_MAP_BYTES};
use oxideav_hls::media::{
    build_segment_index, open_media, segment_index_for_media_seconds, ByteSpan, MapEntry,
    SegmentEntry,
};
use oxideav_hls::playlist::{parse_playlist, MediaPlaylist, MediaSegment, Playlist};
use oxideav_hls::seconds::Seconds;
use oxideav_hls::segment::{detect, Format, ReadPlan, SeekTarget, SegmentView};

fn url(text: &str) -> HlsUrl {
    unwrap_hls_uri(&format!("hls+{text}")).unwrap()
}

fn whole(uri: &str, duration: f32) -> MediaSegment {
    MediaSegment {
        uri: uri.to_string(),
        duration: duration.to_bits(),
        byte_range: None,
        discontinuity: false,
        key_method: None,
        map: None,
    }
}

fn starts(entries: &[SegmentEntry]) -> Vec<Seconds> {
    let mut start = 0.0f64;
    let mut list = Vec::new();
    for entry in entries {
        list.push(Seconds { bits: start.to_bits() });
        start += f64::from(f32::from_bits(entry.duration));
    }
    list
}

fn seconds(value: f64) -> Seconds {
    Seconds { bits: value.to_bits() }
}

#[test]
fn extinf_index_maps_media_time_without_segment_byte_lengths() {
    let media_url = url("https://example.test/vod/index.m3u8");
    let media = MediaPlaylist {
        end_list: true,
        i_frames_only: false,
        segments: vec![whole("0.ts", 10.0), whole("1.ts", 10.5), whole("2.ts", 9.5)],
    };
    let segments = build_segment_index(&media_url, &media).unwrap();
    let starts = starts(&segments);
    assert_eq!(starts[0], seconds(0.0));
    assert_eq!(starts[1], seconds(10.0));
    assert_eq!(starts[2], seconds(20.5));
    assert_eq!(segment_index_for_media_seconds(&starts, seconds(0.0)), 0);
    assert_eq!(segment_index_for_media_seconds(&starts, seconds(9.999)), 0);
    assert_eq!(segment_index_for_media_seconds(&starts, seconds(10.0)), 1);
    assert_eq!(segment_index_for_media_seconds(&starts, seconds(20.49)), 1);
    assert_eq!(segment_index_for_media_seconds(&starts, seconds(29.9)), 2);
    assert_eq!(segments[2].url.text, "https://example.test/vod/2.ts");
    assert_eq!(segment_index_for_media_seconds(&starts, seconds(1e9)), 2);
    assert_eq!(segment_index_for_media_seconds(&starts, seconds(f64::INFINITY)), 2);
    for before in [-1.0, -0.0, f64::NAN, f64::NEG_INFINITY] {
        assert_eq!(segment_index_for_media_seconds(&starts, seconds(before)), 0);
    }
}

#[test]
fn dispatch_uses_content_and_enforces_initialization_rules() {
    let mut ts = vec![0; 376];
    ts[0] = 0x47;
    ts[188] = 0x47;
    assert_eq!(detect(&ts, false).unwrap(), Format::MpegTs);
    assert_eq!(detect(&ts, true).unwrap(), Format::MpegTs);
    assert_eq!(detect(b"\0\0\0\x18ftyp", true).unwrap(), Format::Mp4);
    assert_eq!(detect(b"ID3\x03\0\0", false).unwrap(), Format::PackedAudio);
    assert!(detect(b"\0\0\0\x18ftyp", false).is_err());
    assert!(detect(b"ID3\x03\0\0", true).is_err());
    for bytes in [b"".as_slice(), b"WEBVTT", b"\xff\xf1", b"not media"] {
        assert!(detect(bytes, false).is_err());
    }
}

#[test]
fn refused_formats_are_told_apart() {
    assert_eq!(detect(b"\0\0\0\x18moov", false), Err(Fault::UnmappedMp4));
    assert_eq!(detect(b"\0\0\0\x18styp", true), Ok(Format::Mp4));
    assert_eq!(detect(b"\0\0\0\x18free", true), Err(Fault::UnknownFormat));
    assert_eq!(detect(b"ID3", true), Err(Fault::MappedPackedAudio));
    assert_eq!(detect(b"ID", false), Err(Fault::UnknownFormat));
    assert_eq!(detect(&[0x47], false), Ok(Format::MpegTs));
    let mut odd = vec![0; 189];
    odd[0] = 0x47;
    assert_eq!(detect(&odd, false), Err(Fault::UnknownFormat));
    assert_eq!(Fault::UnknownFormat.class(), Class::Unsupported);
    assert_eq!(Fault::UnmappedMp4.class(), Class::Invalid);
    assert_eq!(Fault::Truncated.class(), Class::Io);
    assert_eq!(Fault::Eof.class(), Class::Eof);
}

fn index(text: &str) -> Result<Vec<SegmentEntry>, (Fault, Option<usize>)> {
    let Playlist::Media(media) = parse_playlist(text.as_bytes()).unwrap() else {
        panic!("media")
    };
    open_media(&url("https://example.test/vod/index.m3u8"), &media)
        .map_err(|error| (error.fault, error.segment))
}

#[test]
fn ranges_and_maps_carry_on() {
    let entries = index("#EXTM3U\n#EXT-X-TARGETDURATION:4\n#EXT-X-MAP:URI=\"init.mp4\",BYTERANGE=\"720@10\"\n#EXT-X-BYTERANGE:100@1000\n#EXTINF:4,\nall.mp4\n#EXT-X-BYTERANGE:50\n#EXTINF:4,\nall.mp4\n#EXTINF:4,\nother.mp4\n#EXT-X-MAP:URI=\"b.mp4\",BYTERANGE=\"30\"\n#EXTINF:4,\nlast.mp4\n#EXT-X-ENDLIST\n").unwrap();
    assert_eq!(entries.len(), 4);
    assert_eq!(entries[0].span, Some(ByteSpan { offset: 1000, length: 100 }));
    assert_eq!(entries[1].span, Some(ByteSpan { offset: 1100, length: 50 }));
    assert_eq!(entries[2].span, None);
    for entry in &entries[..3] {
        let map = entry.map.as_ref().unwrap();
        assert_eq!(map.url.text, "https://example.test/vod/init.mp4");
        assert_eq!(map.span, Some(ByteSpan { offset: 10, length: 720 }));
    }
    let map = entries[3].map.as_ref().unwrap();
    assert_eq!(map.url.text, "https://example.test/vod/b.mp4");
    assert_eq!(map.span, Some(ByteSpan { offset: 0, length: 30 }));
    assert_eq!(entries[3].duration, 4.0f32.to_bits());
}

#[test]
fn refused_playlists_are_told_apart() {
    let fault = |text: &str| index(text).unwrap_err();
    let head = "#EXTM3U\n#EXT-X-TARGETDURATION:4\n";
    let end = "#EXT-X-ENDLIST\n";
    assert_eq!(fault(&format!("{head}#EXTINF:4,\na.ts\n")), (Fault::LivePlaylist, None));
    assert_eq!(
        fault(&format!("{head}#EXT-X-I-FRAMES-ONLY\n#EXTINF:4,\na.ts\n{end}")),
        (Fault::IFramesOnly, None)
    );
    assert_eq!(fault(&format!("{head}{end}")), (Fault::NoSegments, None));
    assert_eq!(
        fault(&format!("{head}#EXTINF:4,\na.ts\n#EXT-X-DISCONTINUITY\n#EXTINF:4,\nb.ts\n{end}")),
        (Fault::Discontinuity, Some(1))
    );
    assert_eq!(
        fault(&format!("{head}#EXT-X-KEY:METHOD=AES-128,URI=\"k\"\n#EXTINF:4,\na.ts\n{end}")),
        (Fault::Encrypted, Some(0))
    );
    assert_eq!(
        fault(&format!("{head}#EXTINF:0,\na.ts\n{end}")),
        (Fault::InvalidDuration, Some(0))
    );
    assert_eq!(
        fault(&format!("{head}#EXT-X-BYTERANGE:10\n#EXTINF:4,\na.ts\n{end}")),
        (Fault::DanglingRange, Some(0))
    );
    assert_eq!(
        fault(&format!("{head}#EXT-X-BYTERANGE:10@0\n#EXTINF:4,\na.ts\n#EXT-X-BYTERANGE:10\n#EXTINF:4,\nb.ts\n{end}")),
        (Fault::DanglingRange, Some(1))
    );
    assert_eq!(
        fault(&format!("{head}#EXT-X-BYTERANGE:10@18446744073709551610\n#EXTINF:4,\na.ts\n{end}")),
        (Fault::RangeOverflow, Some(0))
    );
    assert_eq!(
        fault(&format!("{head}#EXTINF:4,\nftp://a/b.ts\n{end}")),
        (Fault::UnsupportedScheme(Role::Segment), Some(0))
    );
    assert_eq!(
        fault(&format!("{head}#EXT-X-MAP:URI=\"https://[\"\n#EXTINF:4,\nb.ts\n{end}")),
        (Fault::InvalidUrl(Role::InitializationMap), Some(0))
    );
    assert_eq!(Fault::Encrypted.class(), Class::Unsupported);
    assert_eq!(Fault::LivePlaylist.class(), Class::Unsupported);
    assert_eq!(Fault::DanglingRange.class(), Class::Invalid);
}

#[test]
fn unencrypted_keys_and_infinite_durations() {
    let base = url("https://example.test/vod/index.m3u8");
    let mut segment = whole("a.ts", 4.0);
    segment.key_method = Some("NONE".to_string());
    let mut media = MediaPlaylist { end_list: true, i_frames_only: false, segments: vec![segment] };
    assert!(build_segment_index(&base, &media).is_ok());
    for duration in [f32::INFINITY, f32::NAN, -1.0, -0.0, f32::NEG_INFINITY] {
        media.segments[0].duration = duration.to_bits();
        assert_eq!(
            build_segment_index(&base, &media).unwrap_err().fault,
            Fault::InvalidDuration
        );
    }
    for duration in [f32::MIN_POSITIVE, f32::MAX, 1e-45] {
        media.segments[0].duration = duration.to_bits();
        assert!(build_segment_index(&base, &media).is_ok());
    }
}

fn drain(mut view: SegmentView, map: &[u8], resource: &[u8], want: u64) -> Vec<u8> {
    let mut out = Vec::new();
    loop {
        match view.read_plan(want) {
            ReadPlan::Nothing => return out,
            ReadPlan::FromMap { offset, length } => {
                out.extend(&map[offset as usize..(offset + length) as usize]);
                view.advance(length);
            }
            ReadPlan::FromResource { offset, length } => {
                out.extend(&resource[offset as usize..(offset + length) as usize]);
                view.advance(length);
            }
        }
    }
}

#[test]
fn views_join_map_and_range() {
    let map = [1, 2, 3];
    let resource = [9, 9, 10, 11, 12, 13, 9];
    let span = Some(ByteSpan { offset: 2, length: 4 });
    let view = SegmentView::new(3, span, 7).unwrap();
    for want in 1..9 {
        assert_eq!(drain(view, &map, &resource, want), vec![1, 2, 3, 10, 11, 12, 13]);
    }
    let all = SegmentView::new(0, None, 7).unwrap();
    assert_eq!(drain(all, &[], &resource, 3), resource.to_vec());
    let span = Some(ByteSpan { offset: 4, length: 4 });
    assert_eq!(SegmentView::new(0, span, 7), Err(Fault::Truncated));
}

#[test]
fn views_seek() {
    let mut view = SegmentView::new(3, None, 7).unwrap();
    assert_eq!(view.seek(SeekTarget::End(-2)), Ok(8));
    assert_eq!(view.read_plan(9), ReadPlan::FromResource { offset: 5, length: 2 });
    assert_eq!(view.seek(SeekTarget::Current(-7)), Ok(1));
    assert_eq!(view.read_plan(9), ReadPlan::FromMap { offset: 1, length: 2 });
    assert_eq!(view.seek(SeekTarget::Current(-2)), Err(Fault::SeekOutOfRange));
    assert_eq!(view.position, 1);
    assert_eq!(view.seek(SeekTarget::Start(50)), Ok(50));
    assert_eq!(view.read_plan(9), ReadPlan::Nothing);
    assert_eq!(view.seek(SeekTarget::Start(u64::MAX)), Ok(u64::MAX));
    assert_eq!(view.seek(SeekTarget::Current(1)), Err(Fault::SeekOutOfRange));
}

fn place(name: &str, span: Option<ByteSpan>) -> MapEntry {
    MapEntry { url: url(&format!("https://example.test/{name}")), span }
}

#[test]
fn maps_are_cached_by_url_and_range() {
    let mut cache = MapCache::new();
    let a = place("a", None);
    let ranged = place("a", Some(ByteSpan { offset: 0, length: 9 }));
    assert!(cache.get(&a).is_none());
    cache.store(&a, vec![1]).unwrap();
    cache.store(&ranged, vec![2]).unwrap();
    assert_eq!(cache.get(&a), Some(&vec![1]));
    assert_eq!(cache.get(&ranged), Some(&vec![2]));
    cache.store(&a, vec![9]).unwrap();
    assert_eq!(cache.get(&a), Some(&vec![1]));
    for name in ["b", "c", "d"] {
        cache.store(&place(name, None), vec![3]).unwrap();
    }
    assert!(cache.get(&a).is_none());
    assert_eq!(cache.get(&ranged), Some(&vec![2]));
    assert_eq!(cache.get(&place("d", None)), Some(&vec![3]));
    assert_eq!(MAX_MAPS, 4);
    assert_eq!(
        cache.store(&place("e", None), vec![0; MAX_MAP_BYTES + 1]),
        Err(Fault::MapTooLarge)
    );
    assert!(cache.get(&place("e", None)).is_none());
    cache.store(&place("e", None), vec![0; MAX_MAP_BYTES]).unwrap();
    assert_eq!(cache.get(&place("e", None)).unwrap().len(), 8 * 1024 * 1024);
}
