//! From a playlist URL to the media playlist that is played.

use vstd::prelude::*;
use crate::address::{resolve, HlsUrl};
use crate::discovery::InfoModel;
use crate::fault::{Error, ErrorModel, Fault, Role};
use crate::playlist::{
    parse_playlist,
    MasterModel,
    MasterPlaylist,
    MediaModel,
    MediaPlaylist,
    Playlist,
    PlaylistModel,
};
use crate::select::select_variant;

verus! {

/// What the first playlist of a source leads to.
#[derive(Debug)]
pub enum Opening {
    /// It is the media playlist.
    Play(MediaPlaylist),
    /// It is a master playlist, and this is the URL of the selected variant.
    Follow(HlsUrl),
}

/// What an opening says.
pub enum OpeningModel {
    Play(MediaModel),
    Follow(Seq<char>),
}

impl View for Opening {
    type V = OpeningModel;

    open spec fn view(&self) -> OpeningModel {
        match self {
            Opening::Play(media) => OpeningModel::Play(media@),
            Opening::Follow(url) => OpeningModel::Follow(url@),
        }
    }
}

/// The media playlist that a master playlist at `base` is played from.
pub open spec fn followed(base: Seq<char>, master: MasterModel, max_height: u64) -> Result<
    Seq<char>,
    ErrorModel,
> {
    if !crate::select::any_playable(master.variants) {
        Err(ErrorModel::bare(Fault::NoPlayableVariants))
    } else {
        crate::address::resolved(
            base,
            master.variants[crate::select::selection(master.variants, max_height)].uri,
            Role::Variant,
        )
    }
}

/// What the bytes of the first playlist, which stands at `url`, lead to.
pub open spec fn opened_first(url: Seq<char>, bytes: Seq<u8>, max_height: u64) -> Result<
    OpeningModel,
    ErrorModel,
> {
    match crate::playlist::read_playlist(bytes) {
        Err(e) => Err(e),
        Ok(PlaylistModel::Media(media)) => Ok(OpeningModel::Play(media)),
        Ok(PlaylistModel::Master(master)) => match followed(url, master, max_height) {
            Err(e) => Err(e),
            Ok(next) => Ok(OpeningModel::Follow(next)),
        },
    }
}

/// What the bytes of a variant's playlist lead to.
pub open spec fn opened_variant(bytes: Seq<u8>) -> Result<MediaModel, ErrorModel> {
    match crate::playlist::read_playlist(bytes) {
        Err(e) => Err(e),
        Ok(PlaylistModel::Media(media)) => Ok(media),
        Ok(PlaylistModel::Master(_)) => Err(ErrorModel::bare(Fault::NestedMaster)),
    }
}

/// Picks the variant of a master playlist at `base` and resolves its URL.
pub fn follow_master(base: &HlsUrl, master: &MasterPlaylist, max_height: u64) -> (r: Result<
    HlsUrl,
    Error,
>)
    ensures
        crate::address::outcome(r) == followed(base@, master@, max_height),
{
    proof {
        crate::select::law_selection_exists(master@.variants, max_height);
    }
    match select_variant(master.variants.as_slice(), max_height) {
        Err(error) => Err(error),
        Ok(i) => {
            let variant = &master.variants[i];
            assert(master@.variants[i as int] == variant@);
            resolve(base, variant.uri.as_str(), Role::Variant)
        },
    }
}

/// Reads the first playlist of a source.
pub fn open_first(url: &HlsUrl, bytes: &[u8], max_height: u64) -> (r: Result<Opening, Error>)
    ensures
        match opened_first(url@, bytes@, max_height) {
            Ok(opening) => r matches Ok(found) && found@ == opening,
            Err(e) => r matches Err(error) && error@ == e,
        },
{
    match parse_playlist(bytes) {
        Err(error) => Err(error),
        Ok(Playlist::Media(media)) => Ok(Opening::Play(media)),
        Ok(Playlist::Master(master)) => match follow_master(url, &master, max_height) {
            Ok(next) => Ok(Opening::Follow(next)),
            Err(error) => Err(error),
        },
    }
}

/// Reads the playlist of a selected variant. It must be a media playlist.
pub fn open_variant(bytes: &[u8]) -> (r: Result<MediaPlaylist, Error>)
    ensures
        match opened_variant(bytes@) {
            Ok(media) => r matches Ok(found) && found@ == media,
            Err(e) => r matches Err(error) && error@ == e,
        },
{
    match parse_playlist(bytes) {
        Err(error) => Err(error),
        Ok(Playlist::Media(media)) => Ok(media),
        Ok(Playlist::Master(_)) => Err(Error::bare(Fault::NestedMaster)),
    }
}

/// The preferred variant of a discovery is the one that opening the same master
/// playlist follows.
pub proof fn law_preferred_variant_is_opened(url: Seq<char>, bytes: Seq<u8>, max_height: u64)
    ensures
        crate::discovery::discovered(url, bytes, max_height) matches Ok(
            InfoModel::Master { variants, preferred_variant, .. },
        ) ==> {
            &&& 0 <= preferred_variant < variants.len()
            &&& opened_first(url, bytes, max_height) == Ok::<OpeningModel, ErrorModel>(
                OpeningModel::Follow(variants[preferred_variant].url),
            )
        },
{
    if let Ok(PlaylistModel::Master(master)) = crate::playlist::read_playlist(bytes) {
        if crate::discovery::inspected(url, master, max_height) is Ok {
            crate::discovery::law_preferred_variant_is_offered(url, master, max_height);
            crate::discovery::law_every_playable_variant_is_offered(
                url,
                master.variants,
                master.alternatives,
            );
        }
    }
}

/// A discovery finds a media playlist exactly where opening plays the playlist as
/// it stands.
pub proof fn law_media_playlists_are_played(url: Seq<char>, bytes: Seq<u8>, max_height: u64)
    ensures
        crate::discovery::discovered(url, bytes, max_height) is Ok ==> (
        crate::discovery::discovered(url, bytes, max_height) == Ok::<InfoModel, ErrorModel>(
            InfoModel::Media { url },
        ) <==> (opened_first(url, bytes, max_height) matches Ok(OpeningModel::Play(_)))),
{
}

} // verus!
