use oxideav_hls::address::{resolve, unwrap_hls_uri, HlsUrl};
use oxideav_hls::discovery::{inspect_master, inspect_playlist, inspect_variants, HlsPlaylistInfo};
use oxideav_hls::fault::{Class, Fault, Role};
use oxideav_hls::opening::{open_first, open_variant, Opening};
use oxideav_hls::playlist::{
    parse_playlist, AlternativeMedia, MasterPlaylist, Playlist, Resolution, VariantStream,
};
use oxideav_hls::select::{max_height, select_variant, DEFAULT_MAX_HEIGHT};
use oxideav_hls::text::parse_number;

fn url(text: &str) -> HlsUrl {
    unwrap_hls_uri(&format!("hls+{text}")).unwrap()
}

fn variant(uri: &str, bandwidth: u64, size: Option<(u64, u64)>) -> VariantStream {
    VariantStream {
        is_i_frame: false,
        uri: uri.to_string(),
        bandwidth,
        average_bandwidth: None,
        codecs: None,
        resolution: size.map(|(width, height)| Resolution { width, height }),
        frame_rate: None,
        audio: None,
        video: None,
    }
}

fn video(group_id: &str, name: &str) -> AlternativeMedia {
    AlternativeMedia {
        media_type: "VIDEO".to_string(),
        uri: None,
        group_id: group_id.to_string(),
        language: None,
        assoc_language: None,
        name: name.to_string(),
        default: false,
        autoselect: false,
        characteristics: None,
        channels: None,
    }
}

#[test]
fn selects_highest_variant_at_or_below_default_height() {
    let variants = vec![
        variant("480.m3u8", 1_000, Some((854, 480))),
        variant("720.m3u8", 2_000, Some((1280, 720))),
        variant("1080.m3u8", 5_000, Some((1920, 1080))),
    ];
    let selected = select_variant(&variants, max_height(None)).unwrap();
    assert_eq!(variants[selected].uri, "720.m3u8");
}

#[test]
fn inspection_resolves_variant_urls_names_and_preferred_rendition() {
    let master_url = url("https://example.test/path/master.m3u8");
    let mut high = variant("1080.m3u8", 5_000_000, Some((1920, 1080)));
    high.codecs = Some("avc1.64002a,mp4a.40.2".to_string());
    high.frame_rate = Some(60.0f64.to_bits());
    high.video = Some("source".to_string());
    let mut middle = variant("720.m3u8", 3_000_000, Some((1280, 720)));
    middle.frame_rate = Some(60.0f64.to_bits());
    middle.video = Some("720p60".to_string());
    let mut iframe = variant("iframe.m3u8", 500_000, None);
    iframe.is_i_frame = true;
    let master = MasterPlaylist {
        variants: vec![high, middle, iframe],
        alternatives: vec![video("source", "1080p60"), video("720p60", "720p60")],
        unknown_tags: Vec::new(),
    };

    let HlsPlaylistInfo::Master {
        variants,
        preferred_variant,
        ..
    } = inspect_master(&master_url, &master, max_height(None)).unwrap()
    else {
        panic!("expected master inspection");
    };

    assert_eq!(variants.len(), 2);
    assert_eq!(
        variants[0].url.text,
        "https://example.test/path/1080.m3u8"
    );
    assert_eq!(variants[0].name.as_deref(), Some("1080p60"));
    assert_eq!(variants[0].width, Some(1920));
    assert_eq!(variants[0].height, Some(1080));
    assert_eq!(variants[0].frame_rate.map(f64::from_bits), Some(60.0));
    assert_eq!(variants[0].bandwidth, 5_000_000);
    assert_eq!(preferred_variant, 1);
    assert_eq!(variants[0].codecs.as_deref(), Some("avc1.64002a,mp4a.40.2"));
    assert_eq!(variants[1].video_group.as_deref(), Some("720p60"));
}

#[test]
fn hls_scheme_unwraps_to_http() {
    assert_eq!(
        unwrap_hls_uri("hls+https://example.test/master.m3u8")
            .unwrap()
            .text,
        "https://example.test/master.m3u8"
    );
}

const MASTER: &[u8] = br#"#EXTM3U
#EXT-X-MEDIA:TYPE=AUDIO,GROUP-ID="stereo",NAME="English",LANGUAGE="en",ASSOC-LANGUAGE="en-GB",DEFAULT=YES,AUTOSELECT=YES,CHANNELS="2",CHARACTERISTICS="public.accessibility.describes-video",URI="../audio/en.m3u8"
#EXT-X-MEDIA:TYPE=AUDIO,GROUP-ID="stereo",NAME="French",LANGUAGE="fr",URI="/audio/fr.m3u8"
#EXT-X-MEDIA:TYPE=AUDIO,GROUP-ID="surround",NAME="English",LANGUAGE="en",CHANNELS="6/JOC",URI="https://cdn.example.test/surround.m3u8"
#EXT-X-MEDIA:TYPE=AUDIO,GROUP-ID="embedded",NAME="Main",DEFAULT=YES,AUTOSELECT=YES
#EXT-X-MEDIA:TYPE=SUBTITLES,GROUP-ID="captions",NAME="English",URI="captions.m3u8"
#EXT-X-STREAM-INF:BANDWIDTH=1000000,RESOLUTION=1280x720,AUDIO="stereo"
video.m3u8
#EXT-X-STREAM-INF:BANDWIDTH=2000000,RESOLUTION=1920x1080,AUDIO="surround"
hd.m3u8
#EXT-X-STREAM-INF:BANDWIDTH=500000,AUDIO="embedded"
muxed.m3u8
#EXT-X-STREAM-INF:BANDWIDTH=100000
silent.m3u8
"#;

#[test]
fn discovery_preserves_audio_groups_and_metadata_without_fetching_renditions() {
    let origin = "http://127.0.0.1:8080";
    let HlsPlaylistInfo::Master {
        variants,
        audio_renditions,
        ..
    } = inspect_playlist(
        &unwrap_hls_uri(&format!("hls+{origin}/path/master.m3u8")).unwrap(),
        MASTER,
        max_height(None),
    )
    .unwrap()
    else {
        panic!("master")
    };
    assert_eq!(audio_renditions.len(), 4);
    let matched = variants[0].audio_renditions(&audio_renditions);
    assert_eq!(matched.len(), 2);
    let en = matched[0];
    assert_eq!(
        en.url.as_ref().unwrap().text,
        format!("{}/audio/en.m3u8", origin)
    );
    assert_eq!(en.language.as_deref(), Some("en"));
    assert_eq!(en.assoc_language.as_deref(), Some("en-GB"));
    assert_eq!(en.channels.as_deref(), Some("2"));
    assert_eq!(
        en.characteristics.as_deref(),
        Some("public.accessibility.describes-video")
    );
    assert!(en.default && en.autoselect);
    assert!(!matched[1].default && !matched[1].autoselect);
    assert_eq!(
        matched[1].url.as_ref().unwrap().text,
        format!("{}/audio/fr.m3u8", origin)
    );
    let surround = variants[1].audio_renditions(&audio_renditions)[0];
    assert_eq!(surround.channels.as_deref(), Some("6/JOC"));
    assert_eq!(
        surround.url.as_ref().unwrap().text,
        "https://cdn.example.test/surround.m3u8"
    );
    assert!(variants[2].audio_renditions(&audio_renditions)[0].url.is_none());
    assert_eq!(variants[3].audio_renditions(&audio_renditions).len(), 0);
}

#[test]
fn findings_can_be_copied_and_compared() {
    let base = url("https://example.test/a/master.m3u8");
    let found = inspect_playlist(&base, MASTER, 720).unwrap();
    assert_eq!(found.clone(), found);
    assert_ne!(inspect_playlist(&base, MASTER, 1080).unwrap(), found);
    let HlsPlaylistInfo::Master { variants, audio_renditions, .. } = found else {
        panic!("master")
    };
    assert_eq!(variants[0].clone(), variants[0]);
    assert_ne!(variants[0], variants[1]);
    assert_ne!(audio_renditions[0], audio_renditions[1]);
    assert_eq!(base.clone(), base);
}

#[test]
fn invalid_audio_uris_fail_discovery() {
    for uri in [
        "file:///audio.aac",
        "ftp://example.test/audio",
        "https://[",
        "",
    ] {
        let master = format!("#EXTM3U\n#EXT-X-MEDIA:TYPE=AUDIO,GROUP-ID=\"a\",NAME=\"Main\",URI=\"{uri}\"\n#EXT-X-STREAM-INF:BANDWIDTH=100,AUDIO=\"a\"\nv.m3u8\n");
        let Playlist::Master(master) = parse_playlist(master.as_bytes()).unwrap() else {
            panic!("master")
        };
        assert!(
            inspect_master(
                &url("https://example.test/master.m3u8"),
                &master,
                max_height(None)
            )
            .is_err(),
            "URI: {uri:?}, alternatives: {:?}",
            master.alternatives
        );
    }
}

fn audio_fault(uri: &str) -> Fault {
    let master = format!("#EXTM3U\n#EXT-X-MEDIA:TYPE=AUDIO,GROUP-ID=\"a\",NAME=\"Main\",URI=\"{uri}\"\n#EXT-X-STREAM-INF:BANDWIDTH=100,AUDIO=\"a\"\nv.m3u8\n");
    inspect_playlist(&url("https://example.test/master.m3u8"), master.as_bytes(), 720)
        .unwrap_err()
        .fault
}

#[test]
fn audio_faults_are_told_apart() {
    assert_eq!(
        audio_fault("file:///audio.aac"),
        Fault::UnsupportedScheme(Role::AudioRendition)
    );
    assert_eq!(audio_fault("https://["), Fault::InvalidUrl(Role::AudioRendition));
    assert_eq!(audio_fault(""), Fault::UnreadAudioRendition);
    let Playlist::Master(mut master) = parse_playlist(MASTER).unwrap() else {
        panic!("master")
    };
    master.alternatives[0].uri = Some(String::new());
    assert_eq!(
        inspect_master(&url("https://example.test/m.m3u8"), &master, 720).unwrap_err().fault,
        Fault::InvalidUrl(Role::AudioRendition)
    );
}

#[test]
fn unread_renditions_of_other_types_do_not_fail_discovery() {
    for (list, fails) in [
        ("TYPE=SUBTITLES,GROUP-ID=\"a\",NAME=\"Main\",URI=\"\"", false),
        ("GROUP-ID=\"a\",NAME=\"x,TYPE=AUDIO,\",TYPE=SUBTITLES,URI=\"\"", false),
        ("GROUP-ID=\"a\", TYPE=AUDIO,NAME=\"Main\",URI=\"\"", true),
        ("GROUP-ID=\"a\",NAME=\"\",TYPE=AUDIO", true),
        ("XTYPE=AUDIO,NAME=\"\"", false),
        ("TYPE=AUDIOS,NAME=\"\"", false),
    ] {
        let master = format!("#EXTM3U\n#EXT-X-MEDIA:{list}\n#EXT-X-STREAM-INF:BANDWIDTH=100\nv.m3u8\n");
        let found = inspect_playlist(&url("https://example.test/master.m3u8"), master.as_bytes(), 720);
        assert_eq!(found.is_err(), fails, "{list}");
    }
}

#[test]
fn preferred_variant_is_what_opening_follows() {
    let base = url("https://example.test/a/master.m3u8");
    for ceiling in [1, 720, 1080, 4320] {
        let HlsPlaylistInfo::Master {
            variants,
            preferred_variant,
            ..
        } = inspect_playlist(&base, MASTER, ceiling).unwrap()
        else {
            panic!("master")
        };
        let Opening::Follow(next) = open_first(&base, MASTER, ceiling).unwrap() else {
            panic!("follow")
        };
        assert_eq!(next.text, variants[preferred_variant].url.text);
    }
    let expect = |ceiling: u64, name: &str| {
        let Opening::Follow(next) = open_first(&base, MASTER, ceiling).unwrap() else {
            panic!("follow")
        };
        assert_eq!(next.text, format!("https://example.test/a/{name}"));
    };
    expect(1, "silent.m3u8");
    expect(720, "video.m3u8");
    expect(1080, "hd.m3u8");
}

#[test]
fn selection_breaks_ties_by_width_bandwidth_and_place() {
    let pick = |variants: Vec<VariantStream>, ceiling: u64| {
        let i = select_variant(&variants, ceiling).unwrap();
        variants[i].uri.clone()
    };
    assert_eq!(
        pick(vec![variant("a", 9, Some((1000, 720))), variant("b", 1, Some((1280, 720)))], 720),
        "b"
    );
    assert_eq!(
        pick(vec![variant("a", 9, Some((1280, 720))), variant("b", 1, Some((1280, 720)))], 720),
        "a"
    );
    assert_eq!(
        pick(vec![variant("a", 9, Some((1280, 720))), variant("b", 9, Some((1280, 720)))], 720),
        "b"
    );
    assert_eq!(
        pick(vec![variant("a", 5, None), variant("b", 4, None), variant("c", 4, None)], 720),
        "b"
    );
    assert_eq!(
        pick(vec![variant("a", 5, None), variant("b", 9, Some((10, 10)))], 720),
        "b"
    );
    let mut iframe = variant("i", 1, Some((1280, 720)));
    iframe.is_i_frame = true;
    let error = select_variant(&[iframe], 720).unwrap_err();
    assert_eq!(error.fault, Fault::NoPlayableVariants);
    assert_eq!(error.fault.class(), Class::Invalid);
}

#[test]
fn ceiling_settings_are_positive_numbers() {
    assert_eq!(DEFAULT_MAX_HEIGHT, 720);
    assert_eq!(max_height(None), 720);
    for (text, ceiling) in [
        ("1080", 1080),
        ("+480", 480),
        ("0", 720),
        ("", 720),
        ("+", 720),
        ("-1", 720),
        (" 480", 720),
        ("480p", 720),
        ("18446744073709551615", u64::MAX),
        ("18446744073709551616", 720),
        ("000000000000000000000000360", 360),
    ] {
        assert_eq!(max_height(Some(text)), ceiling, "{text:?}");
        assert_eq!(parse_number(text), text.parse::<u64>().ok(), "{text:?}");
    }
}

#[test]
fn source_uris_are_checked() {
    assert_eq!(
        unwrap_hls_uri("https://example.test/").unwrap_err().fault,
        Fault::NotHlsUri
    );
    assert_eq!(
        unwrap_hls_uri("hls+ftp://example.test/").unwrap_err().fault,
        Fault::NotHlsUri
    );
    let bad = unwrap_hls_uri("hls+https://[").unwrap_err();
    assert_eq!(bad.fault, Fault::InvalidUrl(Role::Playlist));
    assert_eq!(bad.subject, "https://[");
    assert!(!bad.reason.is_empty());
    assert_eq!(
        unwrap_hls_uri("hls+http://EXAMPLE.test").unwrap().text,
        "http://example.test/"
    );
}

#[test]
fn references_are_resolved_against_their_playlist() {
    let base = url("https://example.test/a/b/master.m3u8?token=1");
    let at = |reference: &str| resolve(&base, reference, Role::Segment).map(|u| u.text);
    assert_eq!(at("x.ts").unwrap(), "https://example.test/a/b/x.ts");
    assert_eq!(at("../x.ts").unwrap(), "https://example.test/a/x.ts");
    assert_eq!(at("/x.ts").unwrap(), "https://example.test/x.ts");
    assert_eq!(at("//cdn.test/x.ts").unwrap(), "https://cdn.test/x.ts");
    assert_eq!(at("http://cdn.test/x").unwrap(), "http://cdn.test/x");
    let error = at("ftp://cdn.test/x").unwrap_err();
    assert_eq!(error.fault, Fault::UnsupportedScheme(Role::Segment));
    assert_eq!(error.subject, "ftp");
    assert_eq!(error.fault.class(), Class::Unsupported);
}

#[test]
fn playlists_that_cannot_be_played_are_told_apart() {
    let base = url("https://example.test/master.m3u8");
    assert_eq!(
        open_first(&base, b"not a playlist", 720).unwrap_err().fault,
        Fault::UnreadablePlaylist
    );
    assert_eq!(open_variant(MASTER).unwrap_err().fault, Fault::NestedMaster);
    let media = b"#EXTM3U\n#EXT-X-TARGETDURATION:9\n#EXTINF:9,\na.ts\n#EXT-X-ENDLIST\n";
    assert_eq!(open_variant(media).unwrap().segments[0].uri, "a.ts");
    assert!(matches!(open_first(&base, media, 720), Ok(Opening::Play(_))));
    let HlsPlaylistInfo::Media { url: found } = inspect_playlist(&base, media, 720).unwrap() else {
        panic!("media")
    };
    assert_eq!(found.text, base.text);
    let iframes = b"#EXTM3U\n#EXT-X-I-FRAME-STREAM-INF:BANDWIDTH=1,URI=\"i.m3u8\"\n";
    assert_eq!(
        inspect_playlist(&base, iframes, 720).unwrap_err().fault,
        Fault::NoPlayableVariants
    );
    let Playlist::Master(empty) = parse_playlist(iframes).unwrap() else {
        panic!("master")
    };
    assert_eq!(
        inspect_variants(&base, &empty).unwrap_err().fault,
        Fault::NoPlayableVariants
    );
    let bad = b"#EXTM3U\n#EXT-X-STREAM-INF:BANDWIDTH=1\nhttps://[\n";
    assert_eq!(
        inspect_playlist(&base, bad, 720).unwrap_err().fault,
        Fault::InvalidUrl(Role::PreferredVariant)
    );
    assert_eq!(
        open_first(&base, bad, 720).unwrap_err().fault,
        Fault::InvalidUrl(Role::Variant)
    );
    let ftp = b"#EXTM3U\n#EXT-X-STREAM-INF:BANDWIDTH=1\nftp://a/b\n";
    assert_eq!(
        inspect_playlist(&base, ftp, 720).unwrap_err().fault,
        Fault::UnsupportedScheme(Role::Variant)
    );
}

#[test]
fn variant_attributes_are_read_from_the_playlist() {
    let text = b"#EXTM3U\n#EXT-X-STREAM-INF:BANDWIDTH=7,AVERAGE-BANDWIDTH=5,CODECS=\"mp4a\",RESOLUTION=10x20,FRAME-RATE=25.5,AUDIO=\"a\",VIDEO=\"v\"\nx.m3u8\n";
    let Playlist::Master(master) = parse_playlist(text).unwrap() else {
        panic!("master")
    };
    let v = &master.variants[0];
    assert_eq!((v.bandwidth, v.average_bandwidth), (7, Some(5)));
    assert_eq!(v.codecs.as_deref(), Some("mp4a"));
    assert_eq!(v.resolution, Some(Resolution { width: 10, height: 20 }));
    assert_eq!(v.frame_rate.map(f64::from_bits), Some(25.5));
    assert_eq!(v.audio.as_deref(), Some("a"));
    assert_eq!(v.video.as_deref(), Some("v"));
    assert!(!v.is_i_frame);
}
