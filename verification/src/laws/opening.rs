//! Reading and opening playlists, told by what the parser reads in their bytes.

use vstd::prelude::*;
use crate::fault::{ErrorModel, Fault, Role};
use crate::opening::{Opening, OpeningModel};
use crate::playlist::{
    AlternativeMedia,
    ExtTag,
    MasterModel,
    MasterPlaylist,
    MediaModel,
    MediaPlaylist,
    MediaSegment,
    Playlist,
    PlaylistModel,
    VariantStream,
};

verus! {

/// Whether an optional text says what another optional text holds.
pub open spec fn says(model: Option<Seq<char>>, text: Option<String>) -> bool {
    match text {
        Some(text) => model == Some(text@),
        None => model is None,
    }
}

/// Variants, renditions and unread tags say what their fields say.
pub proof fn law_master_parts_say_their_fields(v: VariantStream, a: AlternativeMedia, t: ExtTag)
    ensures
        v@.is_i_frame == v.is_i_frame,
        v@.uri == v.uri@,
        v@.bandwidth == v.bandwidth,
        v@.average_bandwidth == v.average_bandwidth,
        says(v@.codecs, v.codecs),
        v@.resolution == v.resolution,
        v@.frame_rate == v.frame_rate,
        says(v@.audio, v.audio),
        says(v@.video, v.video),
        a@.media_type == a.media_type@,
        says(a@.uri, a.uri),
        a@.group_id == a.group_id@,
        says(a@.language, a.language),
        says(a@.assoc_language, a.assoc_language),
        a@.name == a.name@,
        a@.default == a.default,
        a@.autoselect == a.autoselect,
        says(a@.characteristics, a.characteristics),
        says(a@.channels, a.channels),
        t@.tag == t.tag@,
        says(t@.rest, t.rest),
{
}

/// Segments say what their fields say.
pub proof fn law_segments_say_their_fields(s: MediaSegment)
    ensures
        s@.uri == s.uri@,
        s@.duration == s.duration,
        s@.byte_range == s.byte_range,
        s@.discontinuity == s.discontinuity,
        says(s@.key_method, s.key_method),
        s@.map is Some <==> s.map is Some,
        s.map is Some ==> (s@.map->Some_0).uri == (s.map->Some_0).uri@ && (
        s@.map->Some_0).byte_range == (s.map->Some_0).byte_range,
{
}

/// Playlists say what their parts say, each at its place.
pub proof fn law_playlists_say_their_parts(
    master: MasterPlaylist,
    media: MediaPlaylist,
    opening: Opening,
    i: int,
)
    ensures
        master@.variants.len() == master.variants@.len(),
        master@.alternatives.len() == master.alternatives@.len(),
        master@.unknown_tags.len() == master.unknown_tags@.len(),
        0 <= i < master.variants@.len() ==> master@.variants[i] == master.variants@[i]@,
        0 <= i < master.alternatives@.len() ==> master@.alternatives[i]
            == master.alternatives@[i]@,
        0 <= i < master.unknown_tags@.len() ==> master@.unknown_tags[i]
            == master.unknown_tags@[i]@,
        media@.end_list == media.end_list,
        media@.i_frames_only == media.i_frames_only,
        media@.segments.len() == media.segments@.len(),
        0 <= i < media.segments@.len() ==> media@.segments[i] == media.segments@[i]@,
        Playlist::Master(master)@ == PlaylistModel::Master(master@),
        Playlist::Media(media)@ == PlaylistModel::Media(media@),
        Opening::Play(media)@ == OpeningModel::Play(media@),
        opening matches Opening::Follow(url) ==> opening@ == OpeningModel::Follow(url.text@),
{
}

/// At most four mebibytes are fetched of a playlist.
pub proof fn law_playlists_are_bounded()
    ensures
        crate::playlist::MAX_PLAYLIST_BYTES == 4 * 1024 * 1024,
{
}

/// An error about a playlist as a whole.
pub open spec fn refusal(fault: Fault, subject: Seq<char>, reason: Seq<char>) -> ErrorModel {
    ErrorModel { fault, segment: None, subject, reason }
}

/// Reading gives what the parser reads, or its reason.
pub proof fn law_reading_is_parsing(bytes: Seq<u8>)
    ensures
        crate::playlist::parsed_playlist(bytes) matches Ok(playlist)
            ==> crate::playlist::read_playlist(bytes) == Ok::<PlaylistModel, ErrorModel>(playlist),
        crate::playlist::parsed_playlist(bytes) matches Err(reason)
            ==> crate::playlist::read_playlist(bytes) == Err::<PlaylistModel, ErrorModel>(
            refusal(Fault::UnreadablePlaylist, seq![], reason),
        ),
{
}

/// A media playlist is played as it stands, and what cannot be read is refused.
pub proof fn law_first_playlists(url: Seq<char>, bytes: Seq<u8>, max_height: u64)
    ensures
        crate::playlist::parsed_playlist(bytes) matches Ok(PlaylistModel::Media(media))
            ==> crate::opening::opened_first(url, bytes, max_height) == Ok::<
            OpeningModel,
            ErrorModel,
        >(OpeningModel::Play(media)),
        crate::playlist::parsed_playlist(bytes) matches Err(reason)
            ==> crate::opening::opened_first(url, bytes, max_height) == Err::<
            OpeningModel,
            ErrorModel,
        >(refusal(Fault::UnreadablePlaylist, seq![], reason)),
{
}

/// A master playlist leads to the selected variant: to what joining the
/// playlist's URL with the variant's URI gives, if that is an HTTP or HTTPS URL.
/// One of I-frame playlists only leads nowhere.
pub proof fn law_masters_lead_to_their_selection(
    url: Seq<char>,
    bytes: Seq<u8>,
    master: MasterModel,
    max_height: u64,
)
    requires
        crate::playlist::parsed_playlist(bytes) == Ok::<PlaylistModel, Seq<char>>(
            PlaylistModel::Master(master),
        ),
    ensures
        ({
            let r = crate::opening::opened_first(url, bytes, max_height);
            let some = exists|i: int|
                0 <= i < master.variants.len() && !(#[trigger] master.variants[i]).is_i_frame;
            let uri = master.variants[crate::select::selection(master.variants, max_height)].uri;
            let joined = crate::address::joined_url(url, uri);
            &&& !some ==> r == Err::<OpeningModel, ErrorModel>(
                refusal(Fault::NoPlayableVariants, seq![], seq![]),
            )
            &&& some && joined is Err ==> r == Err::<OpeningModel, ErrorModel>(
                refusal(Fault::InvalidUrl(Role::Variant), uri, joined->Err_0),
            )
            &&& some && joined is Ok && !crate::address::http(joined->Ok_0) ==> r == Err::<
                OpeningModel,
                ErrorModel,
            >(
                refusal(
                    Fault::UnsupportedScheme(Role::Variant),
                    crate::address::scheme(joined->Ok_0),
                    seq![],
                ),
            )
            &&& some && joined is Ok && crate::address::http(joined->Ok_0) ==> r == Ok::<
                OpeningModel,
                ErrorModel,
            >(OpeningModel::Follow(joined->Ok_0))
        }),
{
    crate::laws::select::law_something_to_select(master.variants);
}

/// The playlist of a variant is played if it is a media playlist. A master
/// playlist is refused there, and so is what cannot be read.
pub proof fn law_variant_playlists(bytes: Seq<u8>)
    ensures
        match crate::playlist::parsed_playlist(bytes) {
            Ok(PlaylistModel::Media(media)) => crate::opening::opened_variant(bytes) == Ok::<
                MediaModel,
                ErrorModel,
            >(media),
            Ok(PlaylistModel::Master(_)) => crate::opening::opened_variant(bytes) == Err::<
                MediaModel,
                ErrorModel,
            >(refusal(Fault::NestedMaster, seq![], seq![])),
            Err(reason) => crate::opening::opened_variant(bytes) == Err::<MediaModel, ErrorModel>(
                refusal(Fault::UnreadablePlaylist, seq![], reason),
            ),
        },
{
}

} // verus!
