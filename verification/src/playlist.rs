//! Playlists as they are read: the parts of a master or a media playlist that
//! discovery, selection and the segment index depend on.

use vstd::prelude::*;
use crate::fault::{Error, ErrorModel, Fault};

verus! {

/// The most bytes that are fetched of a playlist.
pub const MAX_PLAYLIST_BYTES: u64 = 4194304;

/// The picture size of a variant.
#[derive(Clone, Copy, Debug, PartialEq, Eq, Structural)]
pub struct Resolution {
    pub width: u64,
    pub height: u64,
}

/// A variant of a master playlist.
#[derive(Debug)]
pub struct VariantStream {
    /// Whether the variant holds I-frames only.
    pub is_i_frame: bool,
    pub uri: String,
    pub bandwidth: u64,
    pub average_bandwidth: Option<u64>,
    pub codecs: Option<String>,
    pub resolution: Option<Resolution>,
    /// The frame rate, as the bit pattern of a double.
    pub frame_rate: Option<u64>,
    /// The group of audio renditions that goes with the variant.
    pub audio: Option<String>,
    /// The group of video renditions that the variant belongs to.
    pub video: Option<String>,
}

/// What a variant says.
#[verifier::ext_equal]
pub struct VariantModel {
    pub is_i_frame: bool,
    pub uri: Seq<char>,
    pub bandwidth: u64,
    pub average_bandwidth: Option<u64>,
    pub codecs: Option<Seq<char>>,
    pub resolution: Option<Resolution>,
    pub frame_rate: Option<u64>,
    pub audio: Option<Seq<char>>,
    pub video: Option<Seq<char>>,
}

impl View for VariantStream {
    type V = VariantModel;

    open spec fn view(&self) -> VariantModel {
        VariantModel {
            is_i_frame: self.is_i_frame,
            uri: self.uri@,
            bandwidth: self.bandwidth,
            average_bandwidth: self.average_bandwidth,
            codecs: crate::text::text_of(self.codecs),
            resolution: self.resolution,
            frame_rate: self.frame_rate,
            audio: crate::text::text_of(self.audio),
            video: crate::text::text_of(self.video),
        }
    }
}

/// A rendition that a master playlist offers besides its variants.
#[derive(Debug)]
pub struct AlternativeMedia {
    /// The `TYPE` attribute.
    pub media_type: String,
    pub uri: Option<String>,
    pub group_id: String,
    pub language: Option<String>,
    pub assoc_language: Option<String>,
    pub name: String,
    pub default: bool,
    pub autoselect: bool,
    pub characteristics: Option<String>,
    pub channels: Option<String>,
}

/// What a rendition says.
#[verifier::ext_equal]
pub struct AlternativeModel {
    pub media_type: Seq<char>,
    pub uri: Option<Seq<char>>,
    pub group_id: Seq<char>,
    pub language: Option<Seq<char>>,
    pub assoc_language: Option<Seq<char>>,
    pub name: Seq<char>,
    pub default: bool,
    pub autoselect: bool,
    pub characteristics: Option<Seq<char>>,
    pub channels: Option<Seq<char>>,
}

impl View for AlternativeMedia {
    type V = AlternativeModel;

    open spec fn view(&self) -> AlternativeModel {
        AlternativeModel {
            media_type: self.media_type@,
            uri: crate::text::text_of(self.uri),
            group_id: self.group_id@,
            language: crate::text::text_of(self.language),
            assoc_language: crate::text::text_of(self.assoc_language),
            name: self.name@,
            default: self.default,
            autoselect: self.autoselect,
            characteristics: crate::text::text_of(self.characteristics),
            channels: crate::text::text_of(self.channels),
        }
    }
}

/// A tag that the parser could not read.
#[derive(Debug)]
pub struct ExtTag {
    /// The tag's name behind `#EXT-`.
    pub tag: String,
    /// What follows the colon.
    pub rest: Option<String>,
}

/// What an unread tag says.
#[verifier::ext_equal]
pub struct TagModel {
    pub tag: Seq<char>,
    pub rest: Option<Seq<char>>,
}

impl View for ExtTag {
    type V = TagModel;

    open spec fn view(&self) -> TagModel {
        TagModel { tag: self.tag@, rest: crate::text::text_of(self.rest) }
    }
}

/// A master playlist.
#[derive(Debug)]
pub struct MasterPlaylist {
    pub variants: Vec<VariantStream>,
    pub alternatives: Vec<AlternativeMedia>,
    pub unknown_tags: Vec<ExtTag>,
}

/// What a master playlist says.
#[verifier::ext_equal]
pub struct MasterModel {
    pub variants: Seq<VariantModel>,
    pub alternatives: Seq<AlternativeModel>,
    pub unknown_tags: Seq<TagModel>,
}

/// What a list of variants says.
pub open spec fn variants_of(v: Seq<VariantStream>) -> Seq<VariantModel> {
    Seq::new(v.len(), |i: int| v[i]@)
}

/// What a list of renditions says.
pub open spec fn alternatives_of(v: Seq<AlternativeMedia>) -> Seq<AlternativeModel> {
    Seq::new(v.len(), |i: int| v[i]@)
}

/// What a list of unread tags says.
pub open spec fn tags_of(v: Seq<ExtTag>) -> Seq<TagModel> {
    Seq::new(v.len(), |i: int| v[i]@)
}

impl View for MasterPlaylist {
    type V = MasterModel;

    open spec fn view(&self) -> MasterModel {
        MasterModel {
            variants: variants_of(self.variants@),
            alternatives: alternatives_of(self.alternatives@),
            unknown_tags: tags_of(self.unknown_tags@),
        }
    }
}

/// A byte range of a resource. Without an offset it follows the range before it.
#[derive(Clone, Copy, Debug, PartialEq, Eq, Structural)]
pub struct ByteRange {
    pub length: u64,
    pub offset: Option<u64>,
}

/// An initialization map, as a playlist names it.
#[derive(Debug)]
pub struct MapTag {
    pub uri: String,
    pub byte_range: Option<ByteRange>,
}

/// What an initialization map says.
#[verifier::ext_equal]
pub struct MapModel {
    pub uri: Seq<char>,
    pub byte_range: Option<ByteRange>,
}

impl View for MapTag {
    type V = MapModel;

    open spec fn view(&self) -> MapModel {
        MapModel { uri: self.uri@, byte_range: self.byte_range }
    }
}

/// A segment of a media playlist.
#[derive(Debug)]
pub struct MediaSegment {
    pub uri: String,
    /// The `#EXTINF` duration, as the bit pattern of a single.
    pub duration: u32,
    pub byte_range: Option<ByteRange>,
    pub discontinuity: bool,
    /// The method of the key that precedes the segment.
    pub key_method: Option<String>,
    /// The map that precedes the segment. It stays in force until the next.
    pub map: Option<MapTag>,
}

/// What a segment says.
#[verifier::ext_equal]
pub struct SegmentModel {
    pub uri: Seq<char>,
    pub duration: u32,
    pub byte_range: Option<ByteRange>,
    pub discontinuity: bool,
    pub key_method: Option<Seq<char>>,
    pub map: Option<MapModel>,
}

impl View for MediaSegment {
    type V = SegmentModel;

    open spec fn view(&self) -> SegmentModel {
        SegmentModel {
            uri: self.uri@,
            duration: self.duration,
            byte_range: self.byte_range,
            discontinuity: self.discontinuity,
            key_method: crate::text::text_of(self.key_method),
            map: match self.map {
                Some(map) => Some(map@),
                None => None,
            },
        }
    }
}

/// A media playlist.
#[derive(Debug)]
pub struct MediaPlaylist {
    pub end_list: bool,
    pub i_frames_only: bool,
    pub segments: Vec<MediaSegment>,
}

/// What a media playlist says.
#[verifier::ext_equal]
pub struct MediaModel {
    pub end_list: bool,
    pub i_frames_only: bool,
    pub segments: Seq<SegmentModel>,
}

/// What a list of segments says.
pub open spec fn segments_of(v: Seq<MediaSegment>) -> Seq<SegmentModel> {
    Seq::new(v.len(), |i: int| v[i]@)
}

impl View for MediaPlaylist {
    type V = MediaModel;

    open spec fn view(&self) -> MediaModel {
        MediaModel {
            end_list: self.end_list,
            i_frames_only: self.i_frames_only,
            segments: segments_of(self.segments@),
        }
    }
}

/// A playlist of either kind.
#[derive(Debug)]
pub enum Playlist {
    Master(MasterPlaylist),
    Media(MediaPlaylist),
}

/// What a playlist says.
pub enum PlaylistModel {
    Master(MasterModel),
    Media(MediaModel),
}

impl View for Playlist {
    type V = PlaylistModel;

    open spec fn view(&self) -> PlaylistModel {
        match self {
            Playlist::Master(master) => PlaylistModel::Master(master@),
            Playlist::Media(media) => PlaylistModel::Media(media@),
        }
    }
}

/// What `m3u8_rs::parse_playlist` reads from bytes: a playlist, or why there is
/// none.
pub uninterp spec fn parsed_playlist(bytes: Seq<u8>) -> Result<PlaylistModel, Seq<char>>;

/// Calls `m3u8_rs::parse_playlist` and hands out a media playlist. Whether the
/// bytes hold a playlist, of which kind, and what a media playlist says is a
/// function of the bytes alone.
#[verifier::external_body]
fn parse_media(bytes: &[u8]) -> (r: Result<Option<MediaPlaylist>, String>)
    ensures
        match parsed_playlist(bytes@) {
            Ok(PlaylistModel::Media(media)) => r matches Ok(Some(found)) && found@ == media,
            Ok(PlaylistModel::Master(_)) => r matches Ok(None),
            Err(reason) => r matches Err(text) && text@ == reason,
        },
{
    let parsed = m3u8_rs::parse_playlist(bytes).map_err(|error| format!("{error:?}"))?.1;
    let m3u8_rs::Playlist::MediaPlaylist(media) = parsed else { return Ok(None) };
    let range = |b: m3u8_rs::ByteRange| ByteRange { length: b.length, offset: b.offset };
    Ok(Some(MediaPlaylist {
        end_list: media.end_list,
        i_frames_only: media.i_frames_only,
        segments: media.segments.into_iter().map(|s| MediaSegment {
            uri: s.uri,
            duration: s.duration.to_bits(),
            byte_range: s.byte_range.map(range),
            discontinuity: s.discontinuity,
            key_method: s.key.map(|key| key.method.to_string()),
            map: s.map.map(|map| MapTag { uri: map.uri, byte_range: map.byte_range.map(range) }),
        }).collect(),
    }))
}

/// Calls `m3u8_rs::parse_playlist` and hands out the variants of a master
/// playlist, which are a function of the bytes alone. A frame rate that is spelled
/// as not-a-number has the pattern that the standard library's parser gives it.
#[verifier::external_body]
fn parse_variants(bytes: &[u8]) -> (r: Vec<VariantStream>)
    ensures
        parsed_playlist(bytes@) matches Ok(PlaylistModel::Master(master)) ==> variants_of(r@)
            == master.variants,
{
    let Ok((_, m3u8_rs::Playlist::MasterPlaylist(master))) = m3u8_rs::parse_playlist(bytes) else {
        return Vec::new();
    };
    master.variants.into_iter().map(|v| VariantStream {
        is_i_frame: v.is_i_frame,
        uri: v.uri,
        bandwidth: v.bandwidth,
        average_bandwidth: v.average_bandwidth,
        codecs: v.codecs,
        resolution: v.resolution.map(|r| Resolution { width: r.width, height: r.height }),
        frame_rate: v.frame_rate.map(|rate| rate.to_bits()),
        audio: v.audio,
        video: v.video,
    }).collect()
}

/// Calls `m3u8_rs::parse_playlist` and hands out the renditions of a master
/// playlist with the tags that could not be read, which are a function of the
/// bytes alone.
#[verifier::external_body]
fn parse_alternatives(bytes: &[u8]) -> (r: (Vec<AlternativeMedia>, Vec<ExtTag>))
    ensures
        parsed_playlist(bytes@) matches Ok(PlaylistModel::Master(master)) ==> alternatives_of(r.0@)
            == master.alternatives && tags_of(r.1@) == master.unknown_tags,
{
    let parsed = m3u8_rs::parse_playlist(bytes);
    let Ok((_, m3u8_rs::Playlist::MasterPlaylist(master))) = parsed else { return Default::default() };
    let tags = master.unknown_tags.into_iter().map(|t| ExtTag { tag: t.tag, rest: t.rest });
    let alternatives = master.alternatives.into_iter().map(|a| AlternativeMedia {
        media_type: a.media_type.to_string(),
        uri: a.uri,
        group_id: a.group_id,
        name: a.name,
        language: a.language,
        assoc_language: a.assoc_language,
        default: a.default, autoselect: a.autoselect,
        characteristics: a.characteristics,
        channels: a.channels,
    });
    (alternatives.collect(), tags.collect())
}

/// What reading a playlist comes to.
pub open spec fn read_playlist(bytes: Seq<u8>) -> Result<PlaylistModel, ErrorModel> {
    match parsed_playlist(bytes) {
        Ok(playlist) => Ok(playlist),
        Err(reason) => Err(ErrorModel::about(Fault::UnreadablePlaylist, seq![], reason)),
    }
}

/// Reads a playlist.
pub fn parse_playlist(bytes: &[u8]) -> (r: Result<Playlist, Error>)
    ensures
        match read_playlist(bytes@) {
            Ok(playlist) => r matches Ok(found) && found@ == playlist,
            Err(e) => r matches Err(error) && error@ == e,
        },
{
    match parse_media(bytes) {
        Err(reason) => Err(Error::about(Fault::UnreadablePlaylist, String::new(), reason)),
        Ok(Some(media)) => Ok(Playlist::Media(media)),
        Ok(None) => {
            let variants = parse_variants(bytes);
            let (alternatives, unknown_tags) = parse_alternatives(bytes);
            Ok(Playlist::Master(MasterPlaylist { variants, alternatives, unknown_tags }))
        },
    }
}

} // verus!
