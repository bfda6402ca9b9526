//! Media playlists: what is refused, and the index of the segments that are
//! played.

use vstd::prelude::*;
use crate::address::{resolve, HlsUrl};
use crate::fault::{Error, ErrorModel, Fault, Role};
use crate::playlist::{
    ByteRange,
    MapModel,
    MapTag,
    MediaModel,
    MediaPlaylist,
    MediaSegment,
    SegmentModel,
};
use crate::seconds::Seconds;
use crate::text::same_text;

verus! {

/// A range of bytes of a resource.
#[derive(Clone, Copy, Debug, PartialEq, Eq, Structural)]
pub struct ByteSpan {
    pub offset: u64,
    pub length: u64,
}

impl ByteSpan {
    /// The first byte behind the range.
    pub open spec fn end(self) -> int {
        self.offset + self.length
    }
}

/// An initialization map and where its bytes stand.
#[derive(Debug)]
pub struct MapEntry {
    pub url: HlsUrl,
    /// The range that holds the map, where it is not the whole resource.
    pub span: Option<ByteSpan>,
}

/// What a map's entry says.
#[verifier::ext_equal]
pub struct MapPlace {
    pub url: Seq<char>,
    pub span: Option<ByteSpan>,
}

impl View for MapEntry {
    type V = MapPlace;

    open spec fn view(&self) -> MapPlace {
        MapPlace { url: self.url@, span: self.span }
    }
}

impl Clone for MapEntry {
    fn clone(&self) -> (r: MapEntry)
        ensures
            r == *self,
    {
        MapEntry { url: self.url.clone(), span: self.span }
    }
}

/// A segment that is played.
#[derive(Debug)]
pub struct SegmentEntry {
    pub url: HlsUrl,
    /// The range that holds the segment, where it is not the whole resource.
    pub span: Option<ByteSpan>,
    /// The map in force.
    pub map: Option<MapEntry>,
    /// The duration in seconds, as the bit pattern of a single.
    pub duration: u32,
}

/// What a segment's entry says.
#[verifier::ext_equal]
pub struct EntryModel {
    pub url: Seq<char>,
    pub span: Option<ByteSpan>,
    pub map: Option<MapPlace>,
    pub duration: u32,
}

/// What an optional map's entry says.
pub open spec fn place_of(map: Option<MapEntry>) -> Option<MapPlace> {
    match map {
        Some(map) => Some(map@),
        None => None,
    }
}

impl View for SegmentEntry {
    type V = EntryModel;

    open spec fn view(&self) -> EntryModel {
        EntryModel {
            url: self.url@,
            span: self.span,
            map: place_of(self.map),
            duration: self.duration,
        }
    }
}

/// What an index says.
pub open spec fn entries_of(v: Seq<SegmentEntry>) -> Seq<EntryModel> {
    Seq::new(v.len(), |i: int| v[i]@)
}

/// Why a media playlist is refused as a whole.
pub open spec fn media_fault(media: MediaModel) -> Option<Fault> {
    if !media.end_list {
        Some(Fault::LivePlaylist)
    } else if media.i_frames_only {
        Some(Fault::IFramesOnly)
    } else if media.segments.len() == 0 {
        Some(Fault::NoSegments)
    } else {
        None
    }
}

/// Accepts finished playlists of whole segments only.
pub fn validate_media_playlist(media: &MediaPlaylist) -> (r: Result<(), Fault>)
    ensures
        match media_fault(media@) {
            None => r is Ok,
            Some(f) => r == Err::<(), Fault>(f),
        },
{
    if !media.end_list {
        return Err(Fault::LivePlaylist);
    }
    if media.i_frames_only {
        return Err(Fault::IFramesOnly);
    }
    if media.segments.len() == 0 {
        return Err(Fault::NoSegments);
    }
    Ok(())
}

/// Why a segment is refused: it begins a discontinuity, or it is encrypted.
pub open spec fn segment_fault(segment: SegmentModel) -> Option<ErrorModel> {
    if segment.discontinuity {
        Some(ErrorModel::bare(Fault::Discontinuity))
    } else {
        match segment.key_method {
            Some(method) => if method != "NONE"@ {
                Some(ErrorModel::about(Fault::Encrypted, method, seq![]))
            } else {
                None
            },
            None => None,
        }
    }
}

/// Accepts segments of one continuous timeline that are not encrypted.
pub fn validate_segment(segment: &MediaSegment) -> (r: Result<(), Error>)
    ensures
        match segment_fault(segment@) {
            None => r is Ok,
            Some(e) => r matches Err(error) && error@ == e,
        },
{
    if segment.discontinuity {
        return Err(Error::bare(Fault::Discontinuity));
    }
    if let Some(method) = &segment.key_method {
        if !same_text(method.as_str(), "NONE") {
            return Err(Error::about(Fault::Encrypted, method.clone(), String::new()));
        }
    }
    Ok(())
}

/// Whether a duration is a positive number: its pattern lies between that of zero
/// and that of infinity.
pub open spec fn positive(duration: u32) -> bool {
    0 < duration < 0x7f80_0000
}

/// The range that a playlist means, `follows` being where the range before it
/// ends.
pub open spec fn span_of(range: ByteRange, follows: Option<int>) -> Result<ByteSpan, Fault> {
    let offset: Option<int> = match range.offset {
        Some(offset) => Some(offset as int),
        None => follows,
    };
    match offset {
        None => Err(Fault::DanglingRange),
        Some(offset) => if offset + range.length > u64::MAX {
            Err(Fault::RangeOverflow)
        } else {
            Ok(ByteSpan { offset: offset as u64, length: range.length })
        },
    }
}

/// Where a range without an offset begins: behind the range of the segment
/// before, if that is a range of the same resource.
pub open spec fn implied_offset(before: Seq<EntryModel>, url: Seq<char>) -> Option<int> {
    if before.len() > 0 && before.last().url == url {
        match before.last().span {
            Some(span) => Some(span.end()),
            None => None,
        }
    } else {
        None
    }
}

/// Where a map stands that a playlist at `base` names. A range without an offset
/// starts with the resource.
pub open spec fn map_place(base: Seq<char>, map: MapModel) -> Result<MapPlace, ErrorModel> {
    match crate::address::resolved(base, map.uri, Role::InitializationMap) {
        Err(e) => Err(e),
        Ok(url) => match map.byte_range {
            None => Ok(MapPlace { url, span: None }),
            Some(range) => match span_of(range, Some(0)) {
                Err(f) => Err(ErrorModel::bare(f)),
                Ok(span) => Ok(MapPlace { url, span: Some(span) }),
            },
        },
    }
}

/// The entry of a segment in a playlist at `base`, behind the entries `before`.
pub open spec fn entry(base: Seq<char>, before: Seq<EntryModel>, segment: SegmentModel) -> Result<
    EntryModel,
    ErrorModel,
> {
    match segment_fault(segment) {
        Some(e) => Err(e),
        None => match crate::address::resolved(base, segment.uri, Role::Segment) {
            Err(e) => Err(e),
            Ok(url) => if !positive(segment.duration) {
                Err(ErrorModel::bare(Fault::InvalidDuration))
            } else {
                let span: Result<Option<ByteSpan>, Fault> = match segment.byte_range {
                    None => Ok(None),
                    Some(range) => match span_of(range, implied_offset(before, url)) {
                        Err(f) => Err(f),
                        Ok(span) => Ok(Some(span)),
                    },
                };
                let map: Result<Option<MapPlace>, ErrorModel> = match segment.map {
                    None => Ok(
                        if before.len() > 0 {
                            before.last().map
                        } else {
                            None
                        },
                    ),
                    Some(map) => match map_place(base, map) {
                        Err(e) => Err(e),
                        Ok(place) => Ok(Some(place)),
                    },
                };
                match (span, map) {
                    (Err(f), _) => Err(ErrorModel::bare(f)),
                    (Ok(_), Err(e)) => Err(e),
                    (Ok(span), Ok(map)) => Ok(
                        EntryModel { url, span, map, duration: segment.duration },
                    ),
                }
            },
        },
    }
}

/// The index of the segments of a playlist at `base`, or the first segment that
/// is refused.
pub open spec fn indexed(base: Seq<char>, segments: Seq<SegmentModel>) -> Result<
    Seq<EntryModel>,
    ErrorModel,
>
    decreases segments.len(),
{
    if segments.len() == 0 {
        Ok(seq![])
    } else {
        match indexed(base, segments.drop_last()) {
            Err(e) => Err(e),
            Ok(before) => match entry(base, before, segments.last()) {
                Err(e) => Err(e.at((segments.len() - 1) as usize)),
                Ok(next) => Ok(before.push(next)),
            },
        }
    }
}

fn resolve_span(range: ByteRange, follows: Option<u64>) -> (r: Result<ByteSpan, Fault>)
    ensures
        r == span_of(
            range,
            match follows {
                Some(offset) => Some(offset as int),
                None => None,
            },
        ),
{
    let offset: Option<u64> = match range.offset {
        Some(offset) => Some(offset),
        None => follows,
    };
    match offset {
        None => Err(Fault::DanglingRange),
        Some(offset) => match offset.checked_add(range.length) {
            None => Err(Fault::RangeOverflow),
            Some(_) => Ok(ByteSpan { offset, length: range.length }),
        },
    }
}

fn resolve_map(base: &HlsUrl, map: &MapTag) -> (r: Result<MapEntry, Error>)
    ensures
        match map_place(base@, map@) {
            Ok(place) => r matches Ok(found) && found@ == place && (found.span matches Some(span)
                ==> span.end() <= u64::MAX),
            Err(e) => r matches Err(error) && error@ == e,
        },
{
    let url = match resolve(base, map.uri.as_str(), Role::InitializationMap) {
        Ok(url) => url,
        Err(error) => {
            return Err(error);
        },
    };
    match map.byte_range {
        None => Ok(MapEntry { url, span: None }),
        Some(range) => match resolve_span(range, Some(0)) {
            Ok(span) => Ok(MapEntry { url, span: Some(span) }),
            Err(f) => Err(Error::bare(f)),
        },
    }
}

/// The ranges of an index lie within the range of offsets.
pub open spec fn spans_fit(entries: Seq<EntryModel>) -> bool {
    forall|i: int|
        0 <= i < entries.len() ==> ((#[trigger] entries[i]).span matches Some(span) ==> span.end()
            <= u64::MAX)
}

fn resolve_entry(base: &HlsUrl, before: &Vec<SegmentEntry>, segment: &MediaSegment) -> (r: Result<
    SegmentEntry,
    Error,
>)
    requires
        spans_fit(entries_of(before@)),
    ensures
        match entry(base@, entries_of(before@), segment@) {
            Ok(next) => r matches Ok(found) && found@ == next && (found.span matches Some(span)
                ==> span.end() <= u64::MAX),
            Err(e) => r matches Err(error) && error@ == e,
        },
{
    let ghost entries = entries_of(before@);
    if let Err(error) = validate_segment(segment) {
        return Err(error);
    }
    let url = match resolve(base, segment.uri.as_str(), Role::Segment) {
        Ok(url) => url,
        Err(error) => {
            return Err(error);
        },
    };
    if segment.duration == 0 || segment.duration >= 0x7f80_0000 {
        return Err(Error::bare(Fault::InvalidDuration));
    }
    let mut follows: Option<u64> = None;
    let mut carried: Option<MapEntry> = None;
    if before.len() > 0 {
        let last = &before[before.len() - 1];
        assert(entries.last() == last@);
        assert(entries[entries.len() - 1] == last@);
        if let Some(map) = &last.map {
            carried = Some(map.clone());
        }
        if same_text(last.url.text.as_str(), url.text.as_str()) {
            if let Some(span) = last.span {
                follows = Some(span.offset + span.length);
            }
        }
    }
    let span: Option<ByteSpan> = match segment.byte_range {
        None => None,
        Some(range) => match resolve_span(range, follows) {
            Ok(span) => Some(span),
            Err(f) => {
                return Err(Error::bare(f));
            },
        },
    };
    let map: Option<MapEntry> = match &segment.map {
        None => carried,
        Some(map) => match resolve_map(base, map) {
            Ok(place) => Some(place),
            Err(error) => {
                return Err(error);
            },
        },
    };
    Ok(SegmentEntry { url, span, map, duration: segment.duration })
}

/// Builds the index of the segments of a playlist at `base`.
pub fn build_segment_index(base: &HlsUrl, media: &MediaPlaylist) -> (r: Result<
    Vec<SegmentEntry>,
    Error,
>)
    ensures
        match indexed(base@, media@.segments) {
            Ok(entries) => r matches Ok(found) && entries_of(found@) == entries && spans_fit(
                entries,
            ),
            Err(e) => r matches Err(error) && error@ == e,
        },
{
    let ghost models = media@.segments;
    let mut entries: Vec<SegmentEntry> = Vec::new();
    let mut i: usize = 0;
    assert(entries_of(entries@) =~= seq![]);
    while i < media.segments.len()
        invariant
            i <= media.segments@.len(),
            models == crate::playlist::segments_of(media.segments@),
            indexed(base@, models.take(i as int)) == Ok::<Seq<EntryModel>, ErrorModel>(
                entries_of(entries@),
            ),
            spans_fit(entries_of(entries@)),
        decreases media.segments@.len() - i,
    {
        let segment: &MediaSegment = &media.segments[i];
        let ghost before = entries_of(entries@);
        proof {
            assert(models.take(i + 1).drop_last() =~= models.take(i as int));
            assert(models.take(i + 1).last() == segment@);
            lemma_index_faults(base@, models, i + 1);
        }
        match resolve_entry(base, &entries, segment) {
            Ok(next) => {
                entries.push(next);
                assert(entries_of(entries@) =~= before.push(next@));
            },
            Err(error) => {
                return Err(error.at(i));
            },
        }
        i += 1;
    }
    assert(models.take(i as int) =~= models);
    Ok(entries)
}

/// A segment that is refused ends the index there.
proof fn lemma_index_faults(base: Seq<char>, segments: Seq<SegmentModel>, n: int)
    requires
        0 <= n <= segments.len(),
    ensures
        indexed(base, segments.take(n)) is Err ==> indexed(base, segments) == indexed(
            base,
            segments.take(n),
        ),
    decreases segments.len(),
{
    if n == segments.len() {
        assert(segments.take(n) =~= segments);
    } else {
        lemma_index_faults(base, segments.drop_last(), n);
        assert(segments.drop_last().take(n) =~= segments.take(n));
    }
}

/// What a media playlist at `base` is played from.
pub open spec fn playable_index(base: Seq<char>, media: MediaModel) -> Result<
    Seq<EntryModel>,
    ErrorModel,
> {
    match media_fault(media) {
        Some(f) => Err(ErrorModel::bare(f)),
        None => indexed(base, media.segments),
    }
}

/// Checks a media playlist at `base` and builds its index.
pub fn open_media(base: &HlsUrl, media: &MediaPlaylist) -> (r: Result<Vec<SegmentEntry>, Error>)
    ensures
        match playable_index(base@, media@) {
            Ok(entries) => r matches Ok(found) && entries_of(found@) == entries && found@.len() > 0,
            Err(e) => r matches Err(error) && error@ == e,
        },
{
    proof {
        if indexed(base@, media@.segments) is Ok {
            law_index_is_complete(base@, media@.segments);
        }
    }
    match validate_media_playlist(media) {
        Err(f) => Err(Error::bare(f)),
        Ok(()) => build_segment_index(base, media),
    }
}

/// The index has one entry for each segment, in playlist order, each built behind
/// the entries before it.
pub proof fn law_index_is_complete(base: Seq<char>, segments: Seq<SegmentModel>)
    requires
        indexed(base, segments) is Ok,
    ensures
        ({
            let entries = indexed(base, segments)->Ok_0;
            &&& entries.len() == segments.len()
            &&& forall|i: int|
                0 <= i < entries.len() ==> entry(base, entries.take(i), segments[i]) == Ok::<
                    EntryModel,
                    ErrorModel,
                >(#[trigger] entries[i])
        }),
    decreases segments.len(),
{
    if segments.len() > 0 {
        law_index_is_complete(base, segments.drop_last());
        let entries = indexed(base, segments)->Ok_0;
        let before = indexed(base, segments.drop_last())->Ok_0;
        assert forall|i: int| 0 <= i < entries.len() implies entry(
            base,
            entries.take(i),
            segments[i],
        ) == Ok::<EntryModel, ErrorModel>(#[trigger] entries[i]) by {
            if i < before.len() {
                assert(entries.take(i) =~= before.take(i));
                assert(entries[i] == before[i]);
            } else {
                assert(entries.take(i) =~= before);
            }
        }
    }
}

/// Nothing that is refused gets into an index: its segments are continuous, not
/// encrypted and of positive duration, and have HTTP or HTTPS URLs.
pub proof fn law_index_holds_supported_segments(base: Seq<char>, segments: Seq<SegmentModel>, i: int)
    requires
        indexed(base, segments) is Ok,
        0 <= i < segments.len(),
    ensures
        segment_fault(segments[i]) is None,
        positive(segments[i].duration),
        crate::address::http((indexed(base, segments)->Ok_0)[i].url),
        (indexed(base, segments)->Ok_0)[i].duration == segments[i].duration,
{
    law_index_is_complete(base, segments);
    let entries = indexed(base, segments)->Ok_0;
    assert(entry(base, entries.take(i), segments[i]) == Ok::<EntryModel, ErrorModel>(entries[i]));
}

/// A range without an offset starts where the range of the segment before ends,
/// on the same resource.
pub proof fn law_implicit_ranges_are_contiguous(base: Seq<char>, segments: Seq<SegmentModel>, i: int)
    requires
        indexed(base, segments) is Ok,
        0 <= i < segments.len(),
        segments[i].byte_range matches Some(range) && range.offset is None,
    ensures
        ({
            let entries = indexed(base, segments)->Ok_0;
            &&& i > 0
            &&& entries[i].url == entries[i - 1].url
            &&& entries[i - 1].span is Some
            &&& entries[i].span is Some
            &&& (entries[i].span->Some_0).offset == (entries[i - 1].span->Some_0).end()
            &&& (entries[i].span->Some_0).length == (segments[i].byte_range->Some_0).length
        }),
{
    law_index_is_complete(base, segments);
    let entries = indexed(base, segments)->Ok_0;
    assert(entry(base, entries.take(i), segments[i]) == Ok::<EntryModel, ErrorModel>(entries[i]));
    if i > 0 {
        assert(entries.take(i).last() == entries[i - 1]);
    }
}

/// A map stays in force until the next one.
pub proof fn law_maps_stay_in_force(base: Seq<char>, segments: Seq<SegmentModel>, i: int)
    requires
        indexed(base, segments) is Ok,
        0 <= i < segments.len(),
    ensures
        ({
            let entries = indexed(base, segments)->Ok_0;
            match segments[i].map {
                Some(map) => map_place(base, map) == Ok::<MapPlace, ErrorModel>(
                    entries[i].map->Some_0,
                ) && entries[i].map is Some,
                None => entries[i].map == (if i > 0 {
                    entries[i - 1].map
                } else {
                    None
                }),
            }
        }),
{
    law_index_is_complete(base, segments);
    let entries = indexed(base, segments)->Ok_0;
    assert(entry(base, entries.take(i), segments[i]) == Ok::<EntryModel, ErrorModel>(entries[i]));
    if i > 0 {
        assert(entries.take(i).last() == entries[i - 1]);
    }
}

/// Whether the first `n` segments have all started at a media time.
pub open spec fn started(starts: Seq<Seconds>, time: Seconds, n: int) -> bool {
    forall|j: int| 0 <= j < n ==> (#[trigger] starts[j]).at_most(time.clamped())
}

/// Whether segment `i` is the one that a media time falls into: it and all before
/// it have started, and the next has not. The first segment takes the times
/// before it, too.
pub open spec fn falls_into(starts: Seq<Seconds>, time: Seconds, i: int) -> bool {
    &&& 0 <= i < starts.len()
    &&& i > 0 ==> started(starts, time, i + 1)
    &&& i + 1 < starts.len() ==> !started(starts, time, i + 2)
}

/// The segment that a media time falls into.
pub open spec fn segment_at(starts: Seq<Seconds>, time: Seconds) -> int {
    choose|i: int| falls_into(starts, time, i)
}

/// Finds the segment that a media time falls into, `starts` being the media times
/// at which the segments start. A time before the first segment falls into it,
/// one behind the last into that.
pub fn segment_index_for_media_seconds(starts: &[Seconds], time: Seconds) -> (r: usize)
    requires
        starts@.len() > 0,
    ensures
        falls_into(starts@, time, r as int),
        r == segment_at(starts@, time),
{
    let time_in: Seconds = time.clamp_to_start();
    let mut reached: usize = 0;
    while reached < starts.len() && starts[reached].is_at_most(time_in)
        invariant
            reached <= starts@.len(),
            time_in == time.clamped(),
            forall|j: int| 0 <= j < reached ==> (#[trigger] starts@[j]).at_most(time_in),
        ensures
            reached <= starts@.len(),
            forall|j: int| 0 <= j < reached ==> (#[trigger] starts@[j]).at_most(time_in),
            reached < starts@.len() ==> !starts@[reached as int].at_most(time_in),
        decreases starts@.len() - reached,
    {
        reached += 1;
    }
    let found: usize = if reached > 0 {
        reached - 1
    } else {
        0
    };
    proof {
        assert(falls_into(starts@, time, found as int));
        law_media_time_has_one_segment(starts@, time, found as int, segment_at(starts@, time));
    }
    found
}

/// A media time falls into one segment only.
pub proof fn law_media_time_has_one_segment(starts: Seq<Seconds>, time: Seconds, i: int, j: int)
    requires
        falls_into(starts, time, i),
        falls_into(starts, time, j),
    ensures
        i == j,
{
    if i < j {
        assert(started(starts, time, i + 2));
    } else if j < i {
        assert(started(starts, time, j + 2));
    }
}

/// Every media time falls into a segment.
pub proof fn law_media_time_has_a_segment(starts: Seq<Seconds>, time: Seconds)
    requires
        starts.len() > 0,
    ensures
        falls_into(starts, time, segment_at(starts, time)),
{
    lemma_some_segment(starts, time, 0);
}

/// A segment that has started, or the first, is followed by the one that a time
/// falls into, or is that one.
proof fn lemma_some_segment(starts: Seq<Seconds>, time: Seconds, i: int)
    requires
        0 <= i < starts.len(),
        i > 0 ==> started(starts, time, i + 1),
    ensures
        exists|k: int| falls_into(starts, time, k),
    decreases starts.len() - i,
{
    if i + 1 < starts.len() && started(starts, time, i + 2) {
        lemma_some_segment(starts, time, i + 1);
    } else {
        assert(falls_into(starts, time, i));
    }
}

/// In an index that starts at zero, the segment that a time falls into starts at
/// or before the time, and the next one after it.
pub proof fn law_media_time_lies_within_its_segment(starts: Seq<Seconds>, time: Seconds, i: int)
    requires
        falls_into(starts, time, i),
        starts[0].zero(),
    ensures
        starts[i].at_most(time.clamped()),
        i + 1 < starts.len() ==> !starts[i + 1].at_most(time.clamped()),
{
    assert(starts[0].at_most(time.clamped()));
    if i + 1 < starts.len() && starts[i + 1].at_most(time.clamped()) {
        assert(started(starts, time, i + 2));
    }
}

} // verus!
