//! Discovery: what a playlist offers, without opening any of it.

use vstd::prelude::*;
use vstd::slice::slice_subrange;
use crate::address::{join, resolve, HlsUrl};
use crate::bytes::is_ascii_text;
use crate::fault::{Error, ErrorModel, Fault, Role};
use crate::playlist::{
    parse_playlist,
    AlternativeMedia,
    AlternativeModel,
    ExtTag,
    MasterModel,
    MasterPlaylist,
    Playlist,
    PlaylistModel,
    TagModel,
    VariantModel,
    VariantStream,
};
use crate::select::select_variant;
use crate::text::{copy_option, same_option, same_text};

verus! {

/// A variant that a master playlist offers for playing. Its URL is absolute, so
/// it can be opened without fetching the master playlist again.
#[derive(Clone, Debug, PartialEq)]
pub struct HlsVariant {
    pub url: HlsUrl,
    pub bandwidth: u64,
    pub average_bandwidth: Option<u64>,
    pub width: Option<u64>,
    pub height: Option<u64>,
    /// The frame rate, as the bit pattern of a double.
    pub frame_rate: Option<u64>,
    pub codecs: Option<String>,
    pub video_group: Option<String>,
    pub audio_group: Option<String>,
    /// The name of the video rendition that the variant belongs to.
    pub name: Option<String>,
}

/// What an offered variant says.
#[verifier::ext_equal]
pub struct OfferModel {
    pub url: Seq<char>,
    pub bandwidth: u64,
    pub average_bandwidth: Option<u64>,
    pub width: Option<u64>,
    pub height: Option<u64>,
    pub frame_rate: Option<u64>,
    pub codecs: Option<Seq<char>>,
    pub video_group: Option<Seq<char>>,
    pub audio_group: Option<Seq<char>>,
    pub name: Option<Seq<char>>,
}

impl View for HlsVariant {
    type V = OfferModel;

    open spec fn view(&self) -> OfferModel {
        OfferModel {
            url: self.url@,
            bandwidth: self.bandwidth,
            average_bandwidth: self.average_bandwidth,
            width: self.width,
            height: self.height,
            frame_rate: self.frame_rate,
            codecs: crate::text::text_of(self.codecs),
            video_group: crate::text::text_of(self.video_group),
            audio_group: crate::text::text_of(self.audio_group),
            name: crate::text::text_of(self.name),
        }
    }
}

/// An audio rendition that a master playlist offers.
#[derive(Clone, Debug, PartialEq)]
pub struct HlsAudioRendition {
    pub group_id: String,
    /// The rendition's name, which is unique within its group only.
    pub name: String,
    /// The rendition's own playlist. Without one, the audio is embedded in the
    /// variants that the group goes with.
    pub url: Option<HlsUrl>,
    pub language: Option<String>,
    pub assoc_language: Option<String>,
    pub default: bool,
    pub autoselect: bool,
    pub channels: Option<String>,
    /// The accessibility characteristics.
    pub characteristics: Option<String>,
}

/// What an audio rendition says.
#[verifier::ext_equal]
pub struct AudioModel {
    pub group_id: Seq<char>,
    pub name: Seq<char>,
    pub url: Option<Seq<char>>,
    pub language: Option<Seq<char>>,
    pub assoc_language: Option<Seq<char>>,
    pub default: bool,
    pub autoselect: bool,
    pub channels: Option<Seq<char>>,
    pub characteristics: Option<Seq<char>>,
}

impl View for HlsAudioRendition {
    type V = AudioModel;

    open spec fn view(&self) -> AudioModel {
        AudioModel {
            group_id: self.group_id@,
            name: self.name@,
            url: match self.url {
                Some(url) => Some(url@),
                None => None,
            },
            language: crate::text::text_of(self.language),
            assoc_language: crate::text::text_of(self.assoc_language),
            default: self.default,
            autoselect: self.autoselect,
            channels: crate::text::text_of(self.channels),
            characteristics: crate::text::text_of(self.characteristics),
        }
    }
}

/// What a list of offered variants says.
pub open spec fn offers_of(v: Seq<HlsVariant>) -> Seq<OfferModel> {
    Seq::new(v.len(), |i: int| v[i]@)
}

/// What a list of audio renditions says.
pub open spec fn audio_of(v: Seq<HlsAudioRendition>) -> Seq<AudioModel> {
    Seq::new(v.len(), |i: int| v[i]@)
}

/// What discovery finds at a playlist URL.
#[derive(Clone, Debug, PartialEq)]
pub enum HlsPlaylistInfo {
    /// The playlist is a media playlist.
    Media { url: HlsUrl },
    /// The playlist is a master playlist. The preferred variant is the one that
    /// is played when the master playlist is opened itself.
    Master {
        variants: Vec<HlsVariant>,
        preferred_variant: usize,
        audio_renditions: Vec<HlsAudioRendition>,
    },
}

/// What the findings say.
pub enum InfoModel {
    Media { url: Seq<char> },
    Master { variants: Seq<OfferModel>, preferred_variant: int, audio_renditions: Seq<AudioModel> },
}

impl View for HlsPlaylistInfo {
    type V = InfoModel;

    open spec fn view(&self) -> InfoModel {
        match self {
            HlsPlaylistInfo::Media { url } => InfoModel::Media { url: url@ },
            HlsPlaylistInfo::Master { variants, preferred_variant, audio_renditions } =>
                InfoModel::Master {
                variants: offers_of(variants@),
                preferred_variant: *preferred_variant as int,
                audio_renditions: audio_of(audio_renditions@),
            },
        }
    }
}

/// The name of the first video rendition of a group.
pub open spec fn video_name(alternatives: Seq<AlternativeModel>, group: Seq<char>) -> Option<
    Seq<char>,
>
    decreases alternatives.len(),
{
    if alternatives.len() == 0 {
        None
    } else if alternatives[0].media_type == "VIDEO"@ && alternatives[0].group_id == group {
        Some(alternatives[0].name)
    } else {
        video_name(alternatives.skip(1), group)
    }
}

/// What is offered of a variant at a URL.
pub open spec fn offer(
    v: VariantModel,
    url: Seq<char>,
    alternatives: Seq<AlternativeModel>,
) -> OfferModel {
    OfferModel {
        url,
        bandwidth: v.bandwidth,
        average_bandwidth: v.average_bandwidth,
        width: match v.resolution {
            Some(r) => Some(r.width),
            None => None,
        },
        height: match v.resolution {
            Some(r) => Some(r.height),
            None => None,
        },
        frame_rate: v.frame_rate,
        codecs: v.codecs,
        video_group: v.video,
        audio_group: v.audio,
        name: match v.video {
            Some(group) => video_name(alternatives, group),
            None => None,
        },
    }
}

/// The variants that a master playlist at `base` offers, in playlist order, or
/// the first reference that cannot be followed.
pub open spec fn offered(
    base: Seq<char>,
    variants: Seq<VariantModel>,
    alternatives: Seq<AlternativeModel>,
) -> Result<Seq<OfferModel>, ErrorModel>
    decreases variants.len(),
{
    if variants.len() == 0 {
        Ok(seq![])
    } else {
        let v = variants.last();
        match offered(base, variants.drop_last(), alternatives) {
            Err(e) => Err(e),
            Ok(before) => if v.is_i_frame {
                Ok(before)
            } else {
                match crate::address::resolved(base, v.uri, Role::Variant) {
                    Err(e) => Err(e),
                    Ok(url) => Ok(before.push(offer(v, url, alternatives))),
                }
            },
        }
    }
}

/// What is offered of an audio rendition in a master playlist at `base`.
pub open spec fn audio_offer(base: Seq<char>, a: AlternativeModel) -> Result<AudioModel, ErrorModel> {
    let at = |url: Option<Seq<char>>|
        AudioModel {
            group_id: a.group_id,
            name: a.name,
            url,
            language: a.language,
            assoc_language: a.assoc_language,
            default: a.default,
            autoselect: a.autoselect,
            channels: a.channels,
            characteristics: a.characteristics,
        };
    match a.uri {
        None => Ok(at(None)),
        Some(uri) => if uri.len() == 0 {
            Err(ErrorModel::bare(Fault::InvalidUrl(Role::AudioRendition)))
        } else {
            match crate::address::resolved(base, uri, Role::AudioRendition) {
                Err(e) => Err(e),
                Ok(url) => Ok(at(Some(url))),
            }
        },
    }
}

/// The audio renditions that a master playlist at `base` offers, in playlist
/// order, or the first reference that cannot be followed.
pub open spec fn audio_offered(base: Seq<char>, alternatives: Seq<AlternativeModel>) -> Result<
    Seq<AudioModel>,
    ErrorModel,
>
    decreases alternatives.len(),
{
    if alternatives.len() == 0 {
        Ok(seq![])
    } else {
        let a = alternatives.last();
        match audio_offered(base, alternatives.drop_last()) {
            Err(e) => Err(e),
            Ok(before) => if a.media_type != "AUDIO"@ {
                Ok(before)
            } else {
                match audio_offer(base, a) {
                    Err(e) => Err(e),
                    Ok(audio) => Ok(before.push(audio)),
                }
            },
        }
    }
}

/// How many quotation marks a text holds.
pub open spec fn quotes(text: Seq<u8>) -> nat
    decreases text.len(),
{
    if text.len() == 0 {
        0
    } else {
        quotes(text.drop_last()) + (if text.last() == 0x22 {
            1nat
        } else {
            0
        })
    }
}

/// Whether an attribute may open behind a text: nothing but blanks stands between
/// its end and the last comma, or the start.
pub open spec fn opens(before: Seq<u8>) -> bool
    decreases before.len(),
{
    before.len() == 0 || before.last() == 0x2c || ((before.last() == 0x20 || before.last() == 0x09)
        && opens(before.drop_last()))
}

/// Whether the attribute `TYPE=AUDIO` stands at a position of an attribute list.
pub open spec fn audio_type_at(list: Seq<u8>, i: int) -> bool {
    &&& 0 <= i
    &&& i + 10 <= list.len()
    &&& list.subrange(i, i + 10) == crate::bytes::ascii("TYPE=AUDIO"@)
    &&& quotes(list.take(i)) % 2 == 0
    &&& opens(list.take(i))
    &&& i + 10 == list.len() || list[i + 10] == 0x2c
}

/// Whether an attribute list declares audio.
pub open spec fn declares_audio(list: Seq<u8>) -> bool {
    exists|i: int| audio_type_at(list, i)
}

/// Whether an unread tag is an audio rendition.
pub open spec fn unread_audio(tag: TagModel) -> bool {
    tag.tag == "X-MEDIA"@ && (tag.rest matches Some(list) && declares_audio(
        vstd::utf8::encode_utf8(list),
    ))
}

/// The first place in a list of offers that has a given URL.
pub open spec fn is_first_at(offers: Seq<OfferModel>, url: Seq<char>, i: int) -> bool {
    &&& 0 <= i < offers.len()
    &&& offers[i].url == url
    &&& forall|j: int| 0 <= j < i ==> (#[trigger] offers[j]).url != url
}

/// The place of the first offer that has a given URL.
pub open spec fn first_at(offers: Seq<OfferModel>, url: Seq<char>) -> int {
    choose|i: int| is_first_at(offers, url, i)
}

/// Whether some audio rendition could not be read.
pub open spec fn any_unread_audio(tags: Seq<TagModel>) -> bool {
    exists|i: int| 0 <= i < tags.len() && unread_audio(#[trigger] tags[i])
}

/// What a master playlist at `base` offers.
pub open spec fn inspected(base: Seq<char>, master: MasterModel, max_height: u64) -> Result<
    InfoModel,
    ErrorModel,
> {
    if !crate::select::any_playable(master.variants) {
        Err(ErrorModel::bare(Fault::NoPlayableVariants))
    } else {
        let preferred = master.variants[crate::select::selection(master.variants, max_height)];
        match crate::address::joined_url(base, preferred.uri) {
            Err(reason) => Err(
                ErrorModel::about(
                    Fault::InvalidUrl(Role::PreferredVariant),
                    preferred.uri,
                    reason,
                ),
            ),
            Ok(url) => match offered(base, master.variants, master.alternatives) {
                Err(e) => Err(e),
                Ok(variants) => if any_unread_audio(master.unknown_tags) {
                    Err(ErrorModel::bare(Fault::UnreadAudioRendition))
                } else {
                    match audio_offered(base, master.alternatives) {
                        Err(e) => Err(e),
                        Ok(audio_renditions) => Ok(
                            InfoModel::Master {
                                variants,
                                preferred_variant: first_at(variants, url),
                                audio_renditions,
                            },
                        ),
                    }
                },
            },
        }
    }
}

fn find_video_name(alternatives: &[AlternativeMedia], group: &str) -> (r: Option<String>)
    ensures
        crate::text::text_of(r) == video_name(
            crate::playlist::alternatives_of(alternatives@),
            group@,
        ),
{
    let ghost models = crate::playlist::alternatives_of(alternatives@);
    let mut i: usize = 0;
    assert(models.skip(0) =~= models);
    while i < alternatives.len()
        invariant
            i <= alternatives@.len(),
            models == crate::playlist::alternatives_of(alternatives@),
            video_name(models, group@) == video_name(models.skip(i as int), group@),
        decreases alternatives@.len() - i,
    {
        let a = &alternatives[i];
        assert(models.skip(i as int)[0] == a@);
        assert(models.skip(i as int).skip(1) =~= models.skip(i + 1));
        if same_text(a.media_type.as_str(), "VIDEO") && same_text(a.group_id.as_str(), group) {
            return Some(a.name.clone());
        }
        i += 1;
    }
    None
}

/// Lists the variants of a master playlist that can be played, of which there
/// must be one.
pub fn inspect_variants(base: &HlsUrl, master: &MasterPlaylist) -> (r: Result<
    Vec<HlsVariant>,
    Error,
>)
    ensures
        match offered(base@, master@.variants, master@.alternatives) {
            Ok(offers) => if offers.len() == 0 {
                r matches Err(error) && error@ == ErrorModel::bare(Fault::NoPlayableVariants)
            } else {
                r matches Ok(variants) && offers_of(variants@) == offers
            },
            Err(e) => r matches Err(error) && error@ == e,
        },
{
    let ghost models = master@.variants;
    let ghost alternatives = master@.alternatives;
    let mut variants: Vec<HlsVariant> = Vec::new();
    let mut i: usize = 0;
    assert(offers_of(variants@) =~= seq![]);
    while i < master.variants.len()
        invariant
            i <= master.variants@.len(),
            models == crate::playlist::variants_of(master.variants@),
            alternatives == crate::playlist::alternatives_of(master.alternatives@),
            offered(base@, models.take(i as int), alternatives) == Ok::<
                Seq<OfferModel>,
                ErrorModel,
            >(offers_of(variants@)),
        decreases master.variants@.len() - i,
    {
        let v: &VariantStream = &master.variants[i];
        proof {
            assert(models.take(i + 1).drop_last() =~= models.take(i as int));
            assert(models.take(i + 1).last() == v@);
            lemma_offer_faults(base@, models, alternatives, i + 1);
        }
        if !v.is_i_frame {
            let url = match resolve(base, v.uri.as_str(), Role::Variant) {
                Ok(url) => url,
                Err(error) => {
                    return Err(error);
                },
            };
            let name: Option<String> = match &v.video {
                Some(group) => find_video_name(master.alternatives.as_slice(), group.as_str()),
                None => None,
            };
            let (width, height): (Option<u64>, Option<u64>) = match v.resolution {
                Some(r) => (Some(r.width), Some(r.height)),
                None => (None, None),
            };
            let ghost before = offers_of(variants@);
            variants.push(
                HlsVariant {
                    url,
                    bandwidth: v.bandwidth,
                    average_bandwidth: v.average_bandwidth,
                    width,
                    height,
                    frame_rate: v.frame_rate,
                    codecs: copy_option(&v.codecs),
                    video_group: copy_option(&v.video),
                    audio_group: copy_option(&v.audio),
                    name,
                },
            );
            assert(offers_of(variants@) =~= before.push(offers_of(variants@).last()));
        }
        i += 1;
    }
    assert(models.take(i as int) =~= models);
    if variants.len() == 0 {
        return Err(Error::bare(Fault::NoPlayableVariants));
    }
    Ok(variants)
}

/// A reference that cannot be followed stops the list there.
proof fn lemma_offer_faults(
    base: Seq<char>,
    variants: Seq<VariantModel>,
    alternatives: Seq<AlternativeModel>,
    n: int,
)
    requires
        0 <= n <= variants.len(),
    ensures
        offered(base, variants.take(n), alternatives) is Err ==> offered(
            base,
            variants,
            alternatives,
        ) == offered(base, variants.take(n), alternatives),
    decreases variants.len(),
{
    if n == variants.len() {
        assert(variants.take(n) =~= variants);
    } else {
        lemma_offer_faults(base, variants.drop_last(), alternatives, n);
        assert(variants.drop_last().take(n) =~= variants.take(n));
    }
}

/// Lists the audio renditions of a master playlist.
pub fn inspect_audio(base: &HlsUrl, master: &MasterPlaylist) -> (r: Result<
    Vec<HlsAudioRendition>,
    Error,
>)
    ensures
        match audio_offered(base@, master@.alternatives) {
            Ok(offers) => r matches Ok(renditions) && audio_of(renditions@) == offers,
            Err(e) => r matches Err(error) && error@ == e,
        },
{
    let ghost models = master@.alternatives;
    let mut renditions: Vec<HlsAudioRendition> = Vec::new();
    let mut i: usize = 0;
    assert(audio_of(renditions@) =~= seq![]);
    while i < master.alternatives.len()
        invariant
            i <= master.alternatives@.len(),
            models == crate::playlist::alternatives_of(master.alternatives@),
            audio_offered(base@, models.take(i as int)) == Ok::<Seq<AudioModel>, ErrorModel>(
                audio_of(renditions@),
            ),
        decreases master.alternatives@.len() - i,
    {
        let a: &AlternativeMedia = &master.alternatives[i];
        proof {
            assert(models.take(i + 1).drop_last() =~= models.take(i as int));
            assert(models.take(i + 1).last() == a@);
            lemma_audio_faults(base@, models, i + 1);
        }
        if same_text(a.media_type.as_str(), "AUDIO") {
            let url: Option<HlsUrl> = match &a.uri {
                None => None,
                Some(uri) => {
                    if uri.as_str().is_empty() {
                        return Err(Error::bare(Fault::InvalidUrl(Role::AudioRendition)));
                    }
                    match resolve(base, uri.as_str(), Role::AudioRendition) {
                        Ok(url) => Some(url),
                        Err(error) => {
                            return Err(error);
                        },
                    }
                },
            };
            let ghost before = audio_of(renditions@);
            renditions.push(
                HlsAudioRendition {
                    group_id: a.group_id.clone(),
                    name: a.name.clone(),
                    url,
                    language: copy_option(&a.language),
                    assoc_language: copy_option(&a.assoc_language),
                    default: a.default,
                    autoselect: a.autoselect,
                    channels: copy_option(&a.channels),
                    characteristics: copy_option(&a.characteristics),
                },
            );
            assert(audio_of(renditions@) =~= before.push(audio_of(renditions@).last()));
        }
        i += 1;
    }
    assert(models.take(i as int) =~= models);
    Ok(renditions)
}

/// A reference that cannot be followed stops the list there.
proof fn lemma_audio_faults(base: Seq<char>, alternatives: Seq<AlternativeModel>, n: int)
    requires
        0 <= n <= alternatives.len(),
    ensures
        audio_offered(base, alternatives.take(n)) is Err ==> audio_offered(base, alternatives)
            == audio_offered(base, alternatives.take(n)),
    decreases alternatives.len(),
{
    if n == alternatives.len() {
        assert(alternatives.take(n) =~= alternatives);
    } else {
        lemma_audio_faults(base, alternatives.drop_last(), n);
        assert(alternatives.drop_last().take(n) =~= alternatives.take(n));
    }
}

/// Whether an attribute list declares audio.
fn finds_audio_type(list: &[u8]) -> (r: bool)
    ensures
        r == declares_audio(list@),
{
    proof {
        reveal_strlit("TYPE=AUDIO");
    }
    let mut quoted: bool = false;
    let mut opening: bool = true;
    let mut i: usize = 0;
    while i < list.len()
        invariant
            i <= list@.len(),
            quoted == (quotes(list@.take(i as int)) % 2 == 1),
            opening == opens(list@.take(i as int)),
            forall|j: int| 0 <= j < i ==> !audio_type_at(list@, j),
            vstd::utf8::is_ascii_chars("TYPE=AUDIO"@),
        decreases list@.len() - i,
    {
        if !quoted && opening && list.len() - i >= 10 && is_ascii_text(
            slice_subrange(list, i, i + 10),
            "TYPE=AUDIO",
        ) && (list.len() - i == 10 || list[i + 10] == 0x2c) {
            assert(audio_type_at(list@, i as int));
            return true;
        }
        assert(!audio_type_at(list@, i as int));
        let b: u8 = list[i];
        assert(list@.take(i + 1).drop_last() =~= list@.take(i as int));
        assert(list@.take(i + 1).last() == b);
        if b == 0x22 {
            quoted = !quoted;
        }
        opening = b == 0x2c || ((b == 0x20 || b == 0x09) && opening);
        i += 1;
    }
    false
}

/// Whether some audio rendition could not be read.
fn has_unread_audio(tags: &[ExtTag]) -> (r: bool)
    ensures
        r == any_unread_audio(crate::playlist::tags_of(tags@)),
{
    let ghost models = crate::playlist::tags_of(tags@);
    let mut i: usize = 0;
    while i < tags.len()
        invariant
            i <= tags@.len(),
            models == crate::playlist::tags_of(tags@),
            forall|j: int| 0 <= j < i ==> !unread_audio(#[trigger] models[j]),
        decreases tags@.len() - i,
    {
        let tag = &tags[i];
        assert(models[i as int] == tag@);
        if same_text(tag.tag.as_str(), "X-MEDIA") {
            if let Some(list) = &tag.rest {
                if finds_audio_type(list.as_str().as_bytes()) {
                    return true;
                }
            }
        }
        i += 1;
    }
    false
}

/// The selected variant is among those that are offered, under the URL that its
/// reference leads to.
pub proof fn law_preferred_variant_is_offered(base: Seq<char>, master: MasterModel, max_height: u64)
    requires
        crate::select::any_playable(master.variants),
        offered(base, master.variants, master.alternatives) is Ok,
    ensures
        ({
            let preferred = master.variants[crate::select::selection(master.variants, max_height)];
            let offers = offered(base, master.variants, master.alternatives)->Ok_0;
            let url = crate::address::resolved(base, preferred.uri, Role::Variant);
            &&& url is Ok
            &&& crate::address::joined_url(base, preferred.uri) == Ok::<Seq<char>, Seq<char>>(
                url->Ok_0,
            )
            &&& is_first_at(offers, url->Ok_0, first_at(offers, url->Ok_0))
        }),
{
    crate::select::law_selection_exists(master.variants, max_height);
    let s = crate::select::selection(master.variants, max_height);
    let k = lemma_offer_present(base, master.variants, master.alternatives, s);
    let offers = offered(base, master.variants, master.alternatives)->Ok_0;
    let url = crate::address::resolved(base, master.variants[s].uri, Role::Variant)->Ok_0;
    lemma_first_exists(offers, url, k);
}

/// A playable variant has its place among the offers.
proof fn lemma_offer_present(
    base: Seq<char>,
    variants: Seq<VariantModel>,
    alternatives: Seq<AlternativeModel>,
    i: int,
) -> (k: int)
    requires
        0 <= i < variants.len(),
        variants[i].playable(),
        offered(base, variants, alternatives) is Ok,
    ensures
        0 <= k < (offered(base, variants, alternatives)->Ok_0).len(),
        crate::address::resolved(base, variants[i].uri, Role::Variant) is Ok,
        (offered(base, variants, alternatives)->Ok_0)[k] == offer(
            variants[i],
            crate::address::resolved(base, variants[i].uri, Role::Variant)->Ok_0,
            alternatives,
        ),
    decreases variants.len(),
{
    let offers = offered(base, variants, alternatives)->Ok_0;
    if i == variants.len() - 1 {
        offers.len() - 1
    } else {
        let k = lemma_offer_present(base, variants.drop_last(), alternatives, i);
        assert(offers[k] == (offered(base, variants.drop_last(), alternatives)->Ok_0)[k]);
        k
    }
}

/// Where a URL is offered at all, there is a first place that has it.
proof fn lemma_first_exists(offers: Seq<OfferModel>, url: Seq<char>, k: int)
    requires
        0 <= k < offers.len(),
        offers[k].url == url,
    ensures
        is_first_at(offers, url, first_at(offers, url)),
    decreases k,
{
    if !is_first_at(offers, url, k) {
        let j = choose|j: int| 0 <= j < k && (#[trigger] offers[j]).url == url;
        lemma_first_exists(offers, url, j);
    }
}

/// Finds the first offer that has a given URL.
fn find_offer(variants: &[HlsVariant], url: &str) -> (r: usize)
    requires
        is_first_at(offers_of(variants@), url@, first_at(offers_of(variants@), url@)),
    ensures
        r == first_at(offers_of(variants@), url@),
{
    let ghost offers = offers_of(variants@);
    let ghost first = first_at(offers, url@);
    let mut i: usize = 0;
    while i < variants.len()
        invariant
            i <= first,
            first < variants@.len(),
            offers == offers_of(variants@),
            first == first_at(offers, url@),
            is_first_at(offers, url@, first),
        decreases variants@.len() - i,
    {
        assert(offers[i as int] == variants@[i as int]@);
        if same_text(variants[i].url.text.as_str(), url) {
            return i;
        }
        i += 1;
    }
    i
}

/// Inspects a master playlist at `base`.
pub fn inspect_master(base: &HlsUrl, master: &MasterPlaylist, max_height: u64) -> (r: Result<
    HlsPlaylistInfo,
    Error,
>)
    ensures
        match inspected(base@, master@, max_height) {
            Ok(info) => r matches Ok(found) && found@ == info,
            Err(e) => r matches Err(error) && error@ == e,
        },
{
    proof {
        crate::select::law_selection_exists(master@.variants, max_height);
        if crate::select::any_playable(master@.variants) && offered(
            base@,
            master@.variants,
            master@.alternatives,
        ) is Ok {
            law_preferred_variant_is_offered(base@, master@, max_height);
        }
    }
    let selected: usize = match select_variant(master.variants.as_slice(), max_height) {
        Ok(i) => i,
        Err(error) => {
            return Err(error);
        },
    };
    let preferred = &master.variants[selected];
    assert(master@.variants[selected as int] == preferred@);
    let url = match join(base, preferred.uri.as_str(), Role::PreferredVariant) {
        Ok(url) => url,
        Err(error) => {
            return Err(error);
        },
    };
    let variants = match inspect_variants(base, master) {
        Ok(variants) => variants,
        Err(error) => {
            return Err(error);
        },
    };
    if has_unread_audio(master.unknown_tags.as_slice()) {
        return Err(Error::bare(Fault::UnreadAudioRendition));
    }
    let audio_renditions = match inspect_audio(base, master) {
        Ok(renditions) => renditions,
        Err(error) => {
            return Err(error);
        },
    };
    let preferred_variant: usize = find_offer(variants.as_slice(), url.text.as_str());
    Ok(HlsPlaylistInfo::Master { variants, preferred_variant, audio_renditions })
}

/// What discovery finds in the bytes of a playlist at `url`.
pub open spec fn discovered(url: Seq<char>, bytes: Seq<u8>, max_height: u64) -> Result<
    InfoModel,
    ErrorModel,
> {
    match crate::playlist::read_playlist(bytes) {
        Err(e) => Err(e),
        Ok(PlaylistModel::Media(_)) => Ok(InfoModel::Media { url }),
        Ok(PlaylistModel::Master(master)) => inspected(url, master, max_height),
    }
}

/// Inspects the bytes of a playlist at `url`.
pub fn inspect_playlist(url: &HlsUrl, bytes: &[u8], max_height: u64) -> (r: Result<
    HlsPlaylistInfo,
    Error,
>)
    ensures
        match discovered(url@, bytes@, max_height) {
            Ok(info) => r matches Ok(found) && found@ == info,
            Err(e) => r matches Err(error) && error@ == e,
        },
{
    match parse_playlist(bytes) {
        Err(error) => Err(error),
        Ok(Playlist::Media(_)) => Ok(HlsPlaylistInfo::Media { url: url.clone() }),
        Ok(Playlist::Master(master)) => inspect_master(url, &master, max_height),
    }
}

/// The audio renditions of a variant's group, in the order of the list.
pub open spec fn group_of(renditions: Seq<AudioModel>, group: Option<Seq<char>>) -> Seq<AudioModel> {
    renditions.filter(|a: AudioModel| group == Some(a.group_id))
}

impl HlsVariant {
    /// The audio renditions that go with the variant.
    pub fn audio_renditions<'a>(&self, renditions: &'a [HlsAudioRendition]) -> (r: Vec<
        &'a HlsAudioRendition,
    >)
        ensures
            Seq::new(r@.len(), |i: int| (*r@[i])@) == group_of(
                audio_of(renditions@),
                self@.audio_group,
            ),
    {
        let ghost models = audio_of(renditions@);
        let ghost pred = |a: AudioModel| self@.audio_group == Some(a.group_id);
        let mut found: Vec<&'a HlsAudioRendition> = Vec::new();
        let mut i: usize = 0;
        proof {
            reveal(Seq::filter);
            assert(Seq::new(found@.len(), |k: int| (*found@[k])@) =~= models.take(0).filter(pred));
        }
        while i < renditions.len()
            invariant
                i <= renditions@.len(),
                models == audio_of(renditions@),
                pred == (|a: AudioModel| self@.audio_group == Some(a.group_id)),
                Seq::new(found@.len(), |k: int| (*found@[k])@) == models.take(i as int).filter(
                    pred,
                ),
            decreases renditions@.len() - i,
        {
            let a = &renditions[i];
            let ghost before = Seq::new(found@.len(), |k: int| (*found@[k])@);
            proof {
                reveal(Seq::filter);
                assert(models.take(i + 1).drop_last() =~= models.take(i as int));
                assert(models.take(i + 1).last() == a@);
            }
            if same_option(&self.audio_group, a.group_id.as_str()) {
                found.push(a);
                assert(Seq::new(found@.len(), |k: int| (*found@[k])@) =~= before.push(a@));
            }
            i += 1;
        }
        assert(models.take(i as int) =~= models);
        found
    }
}

/// The variants that can be played, in playlist order.
pub open spec fn playables(variants: Seq<VariantModel>) -> Seq<VariantModel> {
    variants.filter(|v: VariantModel| v.playable())
}

/// Whether an offer is that of a variant, under the HTTP or HTTPS URL that the
/// variant's reference leads to.
pub open spec fn is_offer_of(
    base: Seq<char>,
    v: VariantModel,
    alternatives: Seq<AlternativeModel>,
    o: OfferModel,
) -> bool {
    crate::address::resolved(base, v.uri, Role::Variant) matches Ok(url) && crate::address::http(url)
        && o == offer(v, url, alternatives)
}

/// A discovery lists every playable variant, in playlist order, each as it stands
/// in the playlist and under an HTTP or HTTPS URL.
pub proof fn law_every_playable_variant_is_offered(
    base: Seq<char>,
    variants: Seq<VariantModel>,
    alternatives: Seq<AlternativeModel>,
)
    requires
        offered(base, variants, alternatives) is Ok,
    ensures
        ({
            let offers = offered(base, variants, alternatives)->Ok_0;
            &&& offers.len() == playables(variants).len()
            &&& forall|k: int|
                0 <= k < offers.len() ==> is_offer_of(
                    base,
                    playables(variants)[k],
                    alternatives,
                    #[trigger] offers[k],
                )
        }),
    decreases variants.len(),
{
    reveal(Seq::filter);
    if variants.len() > 0 {
        let earlier = offered(base, variants.drop_last(), alternatives)->Ok_0;
        law_every_playable_variant_is_offered(base, variants.drop_last(), alternatives);
        let offers = offered(base, variants, alternatives)->Ok_0;
        assert forall|k: int| 0 <= k < offers.len() implies is_offer_of(
            base,
            playables(variants)[k],
            alternatives,
            #[trigger] offers[k],
        ) by {
            if k < earlier.len() {
                assert(is_offer_of(
                    base,
                    playables(variants.drop_last())[k],
                    alternatives,
                    earlier[k],
                ));
            }
        }
    }
}

/// A discovery lists every audio rendition, in playlist order, each as it stands
/// in the playlist. A rendition that has a URL has an HTTP or HTTPS one; one that
/// has none had no reference.
pub proof fn law_every_audio_rendition_is_offered(
    base: Seq<char>,
    alternatives: Seq<AlternativeModel>,
)
    requires
        audio_offered(base, alternatives) is Ok,
    ensures
        ({
            let offers = audio_offered(base, alternatives)->Ok_0;
            let audio = alternatives.filter(|a: AlternativeModel| a.media_type == "AUDIO"@);
            &&& offers.len() == audio.len()
            &&& forall|k: int|
                0 <= k < offers.len() ==> {
                    &&& audio_offer(base, audio[k]) == Ok::<AudioModel, ErrorModel>(
                        #[trigger] offers[k],
                    )
                    &&& offers[k].url is None <==> audio[k].uri is None
                    &&& offers[k].url matches Some(url) ==> crate::address::http(url)
                }
        }),
    decreases alternatives.len(),
{
    reveal(Seq::filter);
    if alternatives.len() > 0 {
        law_every_audio_rendition_is_offered(base, alternatives.drop_last());
    }
}

/// A discovery that succeeds has read every audio rendition of the playlist: none
/// is left among the tags that could not be read.
pub proof fn law_no_audio_rendition_is_dropped(base: Seq<char>, master: MasterModel, max_height: u64)
    ensures
        inspected(base, master, max_height) matches Ok(info) ==> {
            &&& !any_unread_audio(master.unknown_tags)
            &&& info matches InfoModel::Master { audio_renditions, .. }
            &&& audio_renditions.len() == master.alternatives.filter(
                |a: AlternativeModel| a.media_type == "AUDIO"@,
            ).len()
        },
{
    if audio_offered(base, master.alternatives) is Ok {
        law_every_audio_rendition_is_offered(base, master.alternatives);
    }
}

/// A variant is matched with renditions of its own group only, and one without a
/// group with none.
pub proof fn law_audio_groups_do_not_mix(renditions: Seq<AudioModel>, group: Option<Seq<char>>)
    ensures
        forall|k: int|
            0 <= k < group_of(renditions, group).len() ==> group == Some(
                (#[trigger] group_of(renditions, group)[k]).group_id,
            ),
        group is None ==> group_of(renditions, group).len() == 0,
        forall|i: int|
            0 <= i < renditions.len() && group == Some(renditions[i].group_id)
                ==> group_of(renditions, group).contains(#[trigger] renditions[i]),
    decreases renditions.len(),
{
    reveal(Seq::filter);
    let pred = |a: AudioModel| group == Some(a.group_id);
    if renditions.len() > 0 {
        let before = renditions.drop_last();
        law_audio_groups_do_not_mix(before, group);
        let whole = group_of(renditions, group);
        let part = group_of(before, group);
        if pred(renditions.last()) {
            assert(whole == part.push(renditions.last()));
            assert(whole[part.len() as int] == renditions.last());
        } else {
            assert(whole == part);
        }
        assert forall|i: int|
            0 <= i < renditions.len() && group == Some(renditions[i].group_id) implies whole.contains(
            #[trigger] renditions[i],
        ) by {
            if i < before.len() {
                assert(part.contains(before[i]));
                let k = choose|k: int| 0 <= k < part.len() && part[k] == before[i];
                assert(whole[k] == renditions[i]);
            }
        }
    }
}

} // verus!
