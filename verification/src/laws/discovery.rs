//! Discovery, told field by field from the entries of the master playlist.

use vstd::prelude::*;
use crate::discovery::{
    AudioModel,
    HlsAudioRendition,
    HlsPlaylistInfo,
    HlsVariant,
    InfoModel,
    OfferModel,
};
use crate::fault::{ErrorModel, Fault, Role};
use crate::playlist::{AlternativeModel, MasterModel, PlaylistModel, TagModel, VariantModel};

verus! {

/// Offers and renditions say what their fields say.
pub proof fn law_offers_say_their_fields(v: HlsVariant, a: HlsAudioRendition)
    ensures
        v@.url == v.url.text@,
        v@.bandwidth == v.bandwidth,
        v@.average_bandwidth == v.average_bandwidth,
        v@.width == v.width,
        v@.height == v.height,
        v@.frame_rate == v.frame_rate,
        crate::laws::opening::says(v@.codecs, v.codecs),
        crate::laws::opening::says(v@.video_group, v.video_group),
        crate::laws::opening::says(v@.audio_group, v.audio_group),
        crate::laws::opening::says(v@.name, v.name),
        a@.group_id == a.group_id@,
        a@.name == a.name@,
        a@.url is Some <==> a.url is Some,
        a.url is Some ==> a@.url->Some_0 == (a.url->Some_0).text@,
        crate::laws::opening::says(a@.language, a.language),
        crate::laws::opening::says(a@.assoc_language, a.assoc_language),
        a@.default == a.default,
        a@.autoselect == a.autoselect,
        crate::laws::opening::says(a@.channels, a.channels),
        crate::laws::opening::says(a@.characteristics, a.characteristics),
{
}

/// Findings say what their parts say, each at its place.
pub proof fn law_findings_say_their_parts(info: HlsPlaylistInfo, i: int)
    ensures
        match info {
            HlsPlaylistInfo::Media { url } => info@ == (InfoModel::Media { url: url.text@ }),
            HlsPlaylistInfo::Master { variants, preferred_variant, audio_renditions } => {
                &&& info@ is Master
                &&& info@->variants.len() == variants@.len()
                &&& info@->audio_renditions.len() == audio_renditions@.len()
                &&& info@->preferred_variant == preferred_variant
                &&& 0 <= i < variants@.len() ==> info@->variants[i] == variants@[i]@
                &&& 0 <= i < audio_renditions@.len() ==> info@->audio_renditions[i]
                    == audio_renditions@[i]@
            },
        },
{
}

/// The variants that are no I-frame playlists, in playlist order.
pub open spec fn played(variants: Seq<VariantModel>) -> Seq<VariantModel> {
    variants.filter(|v: VariantModel| !v.is_i_frame)
}

/// The renditions of type `AUDIO`, in playlist order.
pub open spec fn heard(alternatives: Seq<AlternativeModel>) -> Seq<AlternativeModel> {
    alternatives.filter(|a: AlternativeModel| a.media_type == "AUDIO"@)
}

/// Whether an offer has each field of a variant, under the URL that joining the
/// playlist's URL with the variant's URI gives.
pub open spec fn shows(base: Seq<char>, v: VariantModel, o: OfferModel) -> bool {
    &&& crate::address::joined_url(base, v.uri) == Ok::<Seq<char>, Seq<char>>(o.url)
    &&& crate::address::http(o.url)
    &&& o.bandwidth == v.bandwidth
    &&& o.average_bandwidth == v.average_bandwidth
    &&& v.resolution is Some ==> o.width == Some((v.resolution->Some_0).width) && o.height == Some(
        (v.resolution->Some_0).height,
    )
    &&& v.resolution is None ==> o.width is None && o.height is None
    &&& o.frame_rate == v.frame_rate
    &&& o.codecs == v.codecs
    &&& o.video_group == v.video
    &&& o.audio_group == v.audio
    &&& v.video is None ==> o.name is None
}

/// Whether a rendition that is offered has each field of the playlist's, under
/// the URL that joining the playlist's URL with the rendition's URI gives, or
/// under none.
pub open spec fn sounds(base: Seq<char>, a: AlternativeModel, o: AudioModel) -> bool {
    &&& o.group_id == a.group_id
    &&& o.name == a.name
    &&& o.language == a.language
    &&& o.assoc_language == a.assoc_language
    &&& o.default == a.default
    &&& o.autoselect == a.autoselect
    &&& o.channels == a.channels
    &&& o.characteristics == a.characteristics
    &&& o.url is Some <==> a.uri is Some
    &&& a.uri is Some ==> (a.uri->Some_0).len() > 0 && crate::address::joined_url(
        base,
        a.uri->Some_0,
    ) == Ok::<Seq<char>, Seq<char>>(o.url->Some_0) && crate::address::http(o.url->Some_0)
}

/// The variants that are offered, one by one.
proof fn lemma_offers(
    base: Seq<char>,
    variants: Seq<VariantModel>,
    alternatives: Seq<AlternativeModel>,
)
    requires
        crate::discovery::offered(base, variants, alternatives) is Ok,
    ensures
        ({
            let offers = crate::discovery::offered(base, variants, alternatives)->Ok_0;
            &&& offers.len() == played(variants).len()
            &&& forall|k: int|
                0 <= k < offers.len() ==> shows(base, played(variants)[k], #[trigger] offers[k])
            &&& forall|k: int|
                0 <= k < offers.len() && played(variants)[k].video is Some ==> (
                #[trigger] offers[k]).name == crate::discovery::video_name(
                    alternatives,
                    played(variants)[k].video->Some_0,
                )
        }),
    decreases variants.len(),
{
    reveal(Seq::filter);
    if variants.len() > 0 {
        lemma_offers(base, variants.drop_last(), alternatives);
        let before = crate::discovery::offered(base, variants.drop_last(), alternatives)->Ok_0;
        let offers = crate::discovery::offered(base, variants, alternatives)->Ok_0;
        let part = played(variants.drop_last());
        assert forall|k: int| 0 <= k < offers.len() implies shows(
            base,
            played(variants)[k],
            #[trigger] offers[k],
        ) by {
            if k < before.len() {
                assert(shows(base, part[k], before[k]));
            }
        }
        assert forall|k: int|
            0 <= k < offers.len() && played(variants)[k].video is Some implies (
        #[trigger] offers[k]).name == crate::discovery::video_name(
            alternatives,
            played(variants)[k].video->Some_0,
        ) by {
            if k < before.len() {
                assert(offers[k] == before[k]);
                assert(played(variants)[k] == part[k]);
            }
        }
    }
}

/// The renditions that are offered, one by one.
proof fn lemma_audio_offers(base: Seq<char>, alternatives: Seq<AlternativeModel>)
    requires
        crate::discovery::audio_offered(base, alternatives) is Ok,
    ensures
        ({
            let offers = crate::discovery::audio_offered(base, alternatives)->Ok_0;
            &&& offers.len() == heard(alternatives).len()
            &&& forall|k: int|
                0 <= k < offers.len() ==> sounds(base, heard(alternatives)[k], #[trigger] offers[k])
        }),
    decreases alternatives.len(),
{
    reveal(Seq::filter);
    if alternatives.len() > 0 {
        lemma_audio_offers(base, alternatives.drop_last());
        let before = crate::discovery::audio_offered(base, alternatives.drop_last())->Ok_0;
        let offers = crate::discovery::audio_offered(base, alternatives)->Ok_0;
        let part = heard(alternatives.drop_last());
        assert forall|k: int| 0 <= k < offers.len() implies sounds(
            base,
            heard(alternatives)[k],
            #[trigger] offers[k],
        ) by {
            if k < before.len() {
                assert(sounds(base, part[k], before[k]));
            }
        }
    }
}

/// The first video rendition of a group gives the name.
proof fn lemma_video_name(alternatives: Seq<AlternativeModel>, group: Seq<char>, j: int)
    requires
        0 <= j <= alternatives.len(),
        forall|i: int|
            0 <= i < j ==> (#[trigger] alternatives[i]).media_type != "VIDEO"@
                || alternatives[i].group_id != group,
        j < alternatives.len() ==> alternatives[j].media_type == "VIDEO"@
            && alternatives[j].group_id == group,
    ensures
        crate::discovery::video_name(alternatives, group) == (if j < alternatives.len() {
            Some(alternatives[j].name)
        } else {
            None
        }),
    decreases alternatives.len(),
{
    if alternatives.len() > 0 && j > 0 {
        let rest = alternatives.skip(1);
        assert(alternatives[0].media_type != "VIDEO"@ || alternatives[0].group_id != group);
        assert forall|i: int| 0 <= i < j - 1 implies (#[trigger] rest[i]).media_type != "VIDEO"@
            || rest[i].group_id != group by {
            assert(rest[i] == alternatives[i + 1]);
        }
        lemma_video_name(rest, group, j - 1);
    }
}

/// In a discovery that succeeds, the k-th variant that is offered has each field
/// of the k-th variant of the playlist that is no I-frame playlist, under the URL
/// that its URI leads to.
pub proof fn law_variants_are_shown_field_by_field(
    url: Seq<char>,
    bytes: Seq<u8>,
    master: MasterModel,
    max_height: u64,
)
    requires
        crate::playlist::parsed_playlist(bytes) == Ok::<PlaylistModel, Seq<char>>(
            PlaylistModel::Master(master),
        ),
    ensures
        crate::discovery::discovered(url, bytes, max_height) matches Ok(info) ==> {
            let variants = info->variants;
            &&& info is Master
            &&& variants.len() == played(master.variants).len()
            &&& forall|k: int|
                0 <= k < variants.len() ==> shows(
                    url,
                    played(master.variants)[k],
                    #[trigger] variants[k],
                )
        },
{
    if crate::discovery::offered(url, master.variants, master.alternatives) is Ok {
        lemma_offers(url, master.variants, master.alternatives);
    }
}

/// In a discovery that succeeds, the name of the k-th variant is that of the
/// first rendition of type `VIDEO` whose group is the variant's, if there is one.
pub proof fn law_variants_are_named_by_their_group(
    url: Seq<char>,
    bytes: Seq<u8>,
    master: MasterModel,
    max_height: u64,
    k: int,
    j: int,
)
    requires
        crate::playlist::parsed_playlist(bytes) == Ok::<PlaylistModel, Seq<char>>(
            PlaylistModel::Master(master),
        ),
        0 <= k < played(master.variants).len(),
        played(master.variants)[k].video is Some,
        0 <= j <= master.alternatives.len(),
        forall|i: int|
            0 <= i < j ==> (#[trigger] master.alternatives[i]).media_type != "VIDEO"@
                || master.alternatives[i].group_id != played(master.variants)[k].video->Some_0,
        j < master.alternatives.len() ==> master.alternatives[j].media_type == "VIDEO"@
            && master.alternatives[j].group_id == played(master.variants)[k].video->Some_0,
    ensures
        crate::discovery::discovered(url, bytes, max_height) matches Ok(info)
            ==> info->variants[k].name == (if j < master.alternatives.len() {
            Some(master.alternatives[j].name)
        } else {
            None
        }),
{
    if crate::discovery::offered(url, master.variants, master.alternatives) is Ok {
        lemma_offers(url, master.variants, master.alternatives);
        lemma_video_name(master.alternatives, played(master.variants)[k].video->Some_0, j);
    }
}

/// In a discovery that succeeds, the k-th audio rendition has the name of the
/// k-th rendition of type `AUDIO` of the playlist, and its own group, languages,
/// flags, channels and characteristics, under the URL that its URI leads to.
pub proof fn law_audio_is_shown_field_by_field(
    url: Seq<char>,
    bytes: Seq<u8>,
    master: MasterModel,
    max_height: u64,
)
    requires
        crate::playlist::parsed_playlist(bytes) == Ok::<PlaylistModel, Seq<char>>(
            PlaylistModel::Master(master),
        ),
    ensures
        crate::discovery::discovered(url, bytes, max_height) matches Ok(info) ==> {
            let audio = info->audio_renditions;
            &&& info is Master
            &&& audio.len() == heard(master.alternatives).len()
            &&& forall|k: int|
                0 <= k < audio.len() ==> (#[trigger] audio[k]).name == heard(
                    master.alternatives,
                )[k].name
            &&& forall|k: int|
                0 <= k < audio.len() ==> sounds(
                    url,
                    heard(master.alternatives)[k],
                    #[trigger] audio[k],
                )
        },
{
    if crate::discovery::audio_offered(url, master.alternatives) is Ok {
        lemma_audio_offers(url, master.alternatives);
        let audio = crate::discovery::audio_offered(url, master.alternatives)->Ok_0;
        assert forall|k: int| 0 <= k < audio.len() implies (#[trigger] audio[k]).name == heard(
            master.alternatives,
        )[k].name by {
            assert(sounds(url, heard(master.alternatives)[k], audio[k]));
        }
    }
}

/// The preferred variant of a discovery is the first that is offered under the
/// URL to which the URI of the selected variant leads.
pub proof fn law_preferred_variant_has_the_selected_url(
    url: Seq<char>,
    bytes: Seq<u8>,
    master: MasterModel,
    max_height: u64,
)
    requires
        crate::playlist::parsed_playlist(bytes) == Ok::<PlaylistModel, Seq<char>>(
            PlaylistModel::Master(master),
        ),
    ensures
        crate::discovery::discovered(url, bytes, max_height) matches Ok(info) ==> {
            let variants = info->variants;
            let p = info->preferred_variant;
            let uri = master.variants[crate::select::selection(master.variants, max_height)].uri;
            &&& info is Master
            &&& 0 <= p < variants.len()
            &&& crate::address::joined_url(url, uri) == Ok::<Seq<char>, Seq<char>>(variants[p].url)
            &&& forall|j: int| 0 <= j < p ==> (#[trigger] variants[j]).url != variants[p].url
        },
{
    if crate::discovery::discovered(url, bytes, max_height) is Ok {
        crate::discovery::law_preferred_variant_is_offered(url, master, max_height);
    }
}

/// An error about a playlist as a whole.
pub open spec fn failed(fault: Fault, subject: Seq<char>, reason: Seq<char>) -> Result<
    InfoModel,
    ErrorModel,
> {
    Err(ErrorModel { fault, segment: None, subject, reason })
}

/// Discovery finds a media playlist where the parser reads one, at the URL that
/// was inspected, and nothing in what cannot be read.
pub proof fn law_discovery_of_other_playlists(url: Seq<char>, bytes: Seq<u8>, max_height: u64)
    ensures
        crate::playlist::parsed_playlist(bytes) matches Ok(PlaylistModel::Media(_))
            ==> crate::discovery::discovered(url, bytes, max_height) == Ok::<InfoModel, ErrorModel>(
            InfoModel::Media { url },
        ),
        crate::playlist::parsed_playlist(bytes) matches Err(reason)
            ==> crate::discovery::discovered(url, bytes, max_height) == failed(
            Fault::UnreadablePlaylist,
            seq![],
            reason,
        ),
{
}

/// A master playlist is refused for having nothing to play, for the URI of the
/// selected variant, for the URI of some variant, for an audio rendition that was
/// not read, for the URI of some audio rendition, in this order, and for nothing
/// else.
pub proof fn law_refused_masters(
    url: Seq<char>,
    bytes: Seq<u8>,
    master: MasterModel,
    max_height: u64,
)
    requires
        crate::playlist::parsed_playlist(bytes) == Ok::<PlaylistModel, Seq<char>>(
            PlaylistModel::Master(master),
        ),
    ensures
        ({
            let r = crate::discovery::discovered(url, bytes, max_height);
            let some = exists|i: int|
                0 <= i < master.variants.len() && !(#[trigger] master.variants[i]).is_i_frame;
            let uri = master.variants[crate::select::selection(master.variants, max_height)].uri;
            let joined = crate::address::joined_url(url, uri);
            let offers = crate::discovery::offered(url, master.variants, master.alternatives);
            let unread = exists|i: int|
                0 <= i < master.unknown_tags.len() && audio_tag(#[trigger] master.unknown_tags[i]);
            let audio = crate::discovery::audio_offered(url, master.alternatives);
            &&& !some ==> r == failed(Fault::NoPlayableVariants, seq![], seq![])
            &&& some && joined is Err ==> r == failed(
                Fault::InvalidUrl(Role::PreferredVariant),
                uri,
                joined->Err_0,
            )
            &&& some && joined is Ok && offers is Err ==> r == Err::<InfoModel, ErrorModel>(
                offers->Err_0,
            )
            &&& some && joined is Ok && offers is Ok && unread ==> r == failed(
                Fault::UnreadAudioRendition,
                seq![],
                seq![],
            )
            &&& some && joined is Ok && offers is Ok && !unread && audio is Err ==> r == Err::<
                InfoModel,
                ErrorModel,
            >(audio->Err_0)
            &&& some && joined is Ok && offers is Ok && !unread && audio is Ok ==> r is Ok
        }),
{
    crate::laws::select::law_something_to_select(master.variants);
    law_unread_audio(master.unknown_tags);
}

/// Variants are offered one by one: I-frame playlists are passed over, and the
/// first URI that leads nowhere ends the list.
pub proof fn law_offers_go_one_by_one(
    base: Seq<char>,
    variants: Seq<VariantModel>,
    v: VariantModel,
    alternatives: Seq<AlternativeModel>,
)
    ensures
        ({
            let before = crate::discovery::offered(base, variants, alternatives);
            let after = crate::discovery::offered(base, variants.push(v), alternatives);
            let joined = crate::address::joined_url(base, v.uri);
            let refused = |fault: Fault, subject: Seq<char>, reason: Seq<char>|
                Err::<Seq<OfferModel>, ErrorModel>(
                    ErrorModel { fault, segment: None, subject, reason },
                );
            &&& crate::discovery::offered(base, seq![], alternatives) == Ok::<
                Seq<OfferModel>,
                ErrorModel,
            >(seq![])
            &&& before is Err || v.is_i_frame ==> after == before
            &&& before is Ok && !v.is_i_frame && joined is Err ==> after == refused(
                Fault::InvalidUrl(Role::Variant),
                v.uri,
                joined->Err_0,
            )
            &&& before is Ok && !v.is_i_frame && joined is Ok && !crate::address::http(joined->Ok_0)
                ==> after == refused(
                Fault::UnsupportedScheme(Role::Variant),
                crate::address::scheme(joined->Ok_0),
                seq![],
            )
            &&& before is Ok && !v.is_i_frame && joined is Ok && crate::address::http(joined->Ok_0)
                ==> after is Ok && (after->Ok_0).len() == (before->Ok_0).len() + 1 && (
            after->Ok_0).drop_last() == before->Ok_0
        }),
{
    assert(variants.push(v).drop_last() =~= variants);
    let before = crate::discovery::offered(base, variants, alternatives);
    let after = crate::discovery::offered(base, variants.push(v), alternatives);
    if before is Ok && after is Ok && !v.is_i_frame {
        assert((after->Ok_0).drop_last() =~= before->Ok_0);
    }
}

/// Audio renditions are offered one by one: other types are passed over, and the
/// first URI that is empty or leads nowhere ends the list.
pub proof fn law_audio_goes_one_by_one(
    base: Seq<char>,
    alternatives: Seq<AlternativeModel>,
    a: AlternativeModel,
)
    ensures
        ({
            let before = crate::discovery::audio_offered(base, alternatives);
            let after = crate::discovery::audio_offered(base, alternatives.push(a));
            let uri = a.uri->Some_0;
            let joined = crate::address::joined_url(base, uri);
            let refused = |fault: Fault, subject: Seq<char>, reason: Seq<char>|
                Err::<Seq<AudioModel>, ErrorModel>(
                    ErrorModel { fault, segment: None, subject, reason },
                );
            let looked = before is Ok && a.media_type == "AUDIO"@ && a.uri is Some;
            &&& crate::discovery::audio_offered(base, seq![]) == Ok::<Seq<AudioModel>, ErrorModel>(
                seq![],
            )
            &&& before is Err || a.media_type != "AUDIO"@ ==> after == before
            &&& looked && uri.len() == 0 ==> after == refused(
                Fault::InvalidUrl(Role::AudioRendition),
                seq![],
                seq![],
            )
            &&& looked && uri.len() > 0 && joined is Err ==> after == refused(
                Fault::InvalidUrl(Role::AudioRendition),
                uri,
                joined->Err_0,
            )
            &&& looked && uri.len() > 0 && joined is Ok && !crate::address::http(joined->Ok_0)
                ==> after == refused(
                Fault::UnsupportedScheme(Role::AudioRendition),
                crate::address::scheme(joined->Ok_0),
                seq![],
            )
            &&& before is Ok && a.media_type == "AUDIO"@ && (a.uri is None || (uri.len() > 0
                && joined is Ok && crate::address::http(joined->Ok_0))) ==> after is Ok && (
            after->Ok_0).len() == (before->Ok_0).len() + 1 && (after->Ok_0).drop_last()
                == before->Ok_0
        }),
{
    assert(alternatives.push(a).drop_last() =~= alternatives);
    let before = crate::discovery::audio_offered(base, alternatives);
    let after = crate::discovery::audio_offered(base, alternatives.push(a));
    if before is Ok && after is Ok && a.media_type == "AUDIO"@ {
        assert((after->Ok_0).drop_last() =~= before->Ok_0);
    }
}

/// Whether the bytes of `TYPE=AUDIO` stand at a position of a list, up to its end
/// or a comma.
pub open spec fn spelled_at(list: Seq<u8>, i: int) -> bool {
    &&& 0 <= i && i + 10 <= list.len()
    &&& list[i] == 0x54 && list[i + 1] == 0x59 && list[i + 2] == 0x50 && list[i + 3] == 0x45
    &&& list[i + 4] == 0x3d
    &&& list[i + 5] == 0x41 && list[i + 6] == 0x55 && list[i + 7] == 0x44 && list[i + 8] == 0x49
        && list[i + 9] == 0x4f
    &&& i + 10 < list.len() ==> list[i + 10] == 0x2c
}

/// Whether only spaces and tabs stand before a position, back to a place that is
/// the start of a list or follows a comma.
pub open spec fn attribute_starts(list: Seq<u8>, start: int, i: int) -> bool {
    &&& 0 <= start <= i
    &&& start == 0 || list[start - 1] == 0x2c
    &&& forall|q: int| start <= q < i ==> (#[trigger] list[q] == 0x20 || list[q] == 0x09)
}

/// Whether an even number of quotation marks stands before a position of a list.
pub open spec fn unquoted(list: Seq<u8>, i: int) -> bool {
    list.take(i).filter(|b: u8| b == 0x22).len() % 2 == 0
}

/// Whether a list declares audio: somewhere outside of quotation marks an
/// attribute starts, and `TYPE=AUDIO` is all of it.
pub open spec fn audio_listed(list: Seq<u8>) -> bool {
    exists|start: int, i: int| #[trigger]
        attribute_starts(list, start, i) && spelled_at(list, i) && unquoted(list, i)
}

/// Whether an unread tag is an `X-MEDIA` tag whose list declares audio.
pub open spec fn audio_tag(tag: TagModel) -> bool {
    tag.tag == "X-MEDIA"@ && tag.rest is Some && audio_listed(
        vstd::utf8::encode_utf8(tag.rest->Some_0),
    )
}

/// Quotation marks are counted one by one.
proof fn lemma_quotes(text: Seq<u8>)
    ensures
        crate::discovery::quotes(text) == text.filter(|b: u8| b == 0x22).len(),
    decreases text.len(),
{
    reveal(Seq::filter);
    if text.len() > 0 {
        lemma_quotes(text.drop_last());
    }
}

/// Blanks back to a comma or the start open an attribute.
proof fn lemma_opens(list: Seq<u8>, i: int)
    requires
        0 <= i <= list.len(),
    ensures
        crate::discovery::opens(list.take(i)) <==> exists|start: int| #[trigger]
            attribute_starts(list, start, i),
    decreases i,
{
    let before = list.take(i);
    if i == 0 {
        assert(attribute_starts(list, 0, 0));
    } else {
        lemma_opens(list, i - 1);
        assert(before.drop_last() =~= list.take(i - 1));
        assert(before.last() == list[i - 1]);
        if crate::discovery::opens(before) {
            if list[i - 1] == 0x2c {
                assert(attribute_starts(list, i, i));
            } else {
                let start = choose|start: int| #[trigger] attribute_starts(list, start, i - 1);
                assert(attribute_starts(list, start, i));
            }
        }
        if exists|start: int| #[trigger] attribute_starts(list, start, i) {
            let start = choose|start: int| #[trigger] attribute_starts(list, start, i);
            if start < i {
                assert(list[i - 1] == 0x20 || list[i - 1] == 0x09);
                assert(attribute_starts(list, start, i - 1));
            }
        }
    }
}

/// The bytes decide whether the attribute stands at a position.
proof fn lemma_spelled(list: Seq<u8>, i: int)
    ensures
        crate::discovery::audio_type_at(list, i) <==> spelled_at(list, i) && unquoted(list, i) && (
        exists|start: int| #[trigger] attribute_starts(list, start, i)),
{
    reveal_strlit("TYPE=AUDIO");
    if 0 <= i && i + 10 <= list.len() {
        lemma_quotes(list.take(i));
        lemma_opens(list, i);
        let part = list.subrange(i, i + 10);
        let word = crate::bytes::ascii("TYPE=AUDIO"@);
        assert(word =~= seq![0x54u8, 0x59, 0x50, 0x45, 0x3d, 0x41, 0x55, 0x44, 0x49, 0x4f]);
        assert(forall|k: int| 0 <= k < 10 ==> part[k] == list[i + k]);
        if part == word {
            assert(part[0] == 0x54 && part[1] == 0x59 && part[2] == 0x50 && part[3] == 0x45
                && part[4] == 0x3d && part[5] == 0x41 && part[6] == 0x55 && part[7] == 0x44
                && part[8] == 0x49 && part[9] == 0x4f);
        }
        if spelled_at(list, i) {
            assert(part =~= word);
        }
    }
}

/// An attribute list declares audio exactly where `TYPE=AUDIO` is an attribute of
/// it: told by the bytes.
pub proof fn law_audio_is_declared_by_its_attribute(list: Seq<u8>)
    ensures
        crate::discovery::declares_audio(list) <==> audio_listed(list),
{
    if crate::discovery::declares_audio(list) {
        let i = choose|i: int| crate::discovery::audio_type_at(list, i);
        lemma_spelled(list, i);
        let start = choose|start: int| #[trigger] attribute_starts(list, start, i);
        assert(attribute_starts(list, start, i) && spelled_at(list, i) && unquoted(list, i));
    }
    if audio_listed(list) {
        let (start, i) = choose|start: int, i: int| #[trigger]
            attribute_starts(list, start, i) && spelled_at(list, i) && unquoted(list, i);
        lemma_spelled(list, i);
        assert(crate::discovery::audio_type_at(list, i));
    }
}

/// An audio rendition is left unread exactly where some unread tag is an
/// `X-MEDIA` tag whose list declares audio.
pub proof fn law_unread_audio(tags: Seq<TagModel>)
    ensures
        crate::discovery::any_unread_audio(tags) <==> exists|i: int|
            0 <= i < tags.len() && audio_tag(#[trigger] tags[i]),
{
    assert forall|tag: TagModel| crate::discovery::unread_audio(tag) <==> #[trigger] audio_tag(
        tag,
    ) by {
        if tag.rest is Some {
            law_audio_is_declared_by_its_attribute(vstd::utf8::encode_utf8(tag.rest->Some_0));
        }
    }
    if crate::discovery::any_unread_audio(tags) {
        let i = choose|i: int|
            0 <= i < tags.len() && crate::discovery::unread_audio(#[trigger] tags[i]);
        assert(audio_tag(tags[i]));
    }
    if exists|i: int| 0 <= i < tags.len() && audio_tag(#[trigger] tags[i]) {
        let i = choose|i: int| 0 <= i < tags.len() && audio_tag(#[trigger] tags[i]);
        assert(crate::discovery::unread_audio(tags[i]));
    }
}

/// The renditions of a variant are found one by one, each exactly where its group
/// is the variant's.
pub proof fn law_renditions_of_a_group(
    renditions: Seq<AudioModel>,
    a: AudioModel,
    group: Option<Seq<char>>,
)
    ensures
        crate::discovery::group_of(seq![], group) == Seq::<AudioModel>::empty(),
        group == Some(a.group_id) ==> crate::discovery::group_of(renditions.push(a), group)
            == crate::discovery::group_of(renditions, group).push(a),
        group != Some(a.group_id) ==> crate::discovery::group_of(renditions.push(a), group)
            == crate::discovery::group_of(renditions, group),
{
    reveal(Seq::filter);
    assert(renditions.push(a).drop_last() =~= renditions);
}

} // verus!
