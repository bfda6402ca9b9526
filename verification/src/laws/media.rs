//! The segment index, told from the segments of the playlist, and where media
//! times fall into it.

use vstd::prelude::*;
use crate::fault::{ErrorModel, Fault, Role};
use crate::media::{EntryModel, SegmentEntry};
use crate::playlist::{MediaModel, SegmentModel};
use crate::seconds::Seconds;

verus! {

/// Entries say what the segment's own fields say.
pub proof fn law_entries_say_their_fields(e: SegmentEntry, v: Seq<SegmentEntry>, i: int)
    ensures
        e@.url == e.url.text@,
        e@.span == e.span,
        e@.duration == e.duration,
        e@.map is Some <==> e.map is Some,
        e.map is Some ==> (e@.map->Some_0).url == (e.map->Some_0).url.text@ && (
        e@.map->Some_0).span == (e.map->Some_0).span,
        crate::media::entries_of(v).len() == v.len(),
        0 <= i < v.len() ==> crate::media::entries_of(v)[i] == v[i]@,
{
}

/// An error of a segment: which it is, and what is said of it.
pub open spec fn at_segment(
    i: int,
    fault: Fault,
    subject: Seq<char>,
    reason: Seq<char>,
) -> Result<Seq<EntryModel>, ErrorModel> {
    Err(ErrorModel { fault, segment: Some(i as usize), subject, reason })
}

/// Whether a segment begins no discontinuity and has no key but the key `NONE`.
pub open spec fn clear(s: SegmentModel) -> bool {
    !s.discontinuity && (s.key_method is None || s.key_method->Some_0 == "NONE"@)
}

/// Whether a reference can be joined with the playlist's URL into an HTTP or
/// HTTPS URL.
pub open spec fn leads(base: Seq<char>, uri: Seq<char>) -> bool {
    crate::address::joined_url(base, uri) is Ok && crate::address::http(
        crate::address::joined_url(base, uri)->Ok_0,
    )
}

/// Whether the single with a bit pattern is a number above zero: no sign, not all
/// bits of the exponent, and not all bits zero.
pub open spec fn above_zero(bits: u32) -> bool {
    bits / 0x8000_0000 == 0 && bits / 0x80_0000 % 0x100 < 0xff && bits > 0
}

/// In an index, the URL of each entry is what joining the playlist's own URL with
/// the segment's URI gives, whatever entries precede it, and its duration that of
/// the segment.
pub proof fn law_entry_urls_are_joined(base: Seq<char>, segments: Seq<SegmentModel>)
    requires
        crate::media::indexed(base, segments) is Ok,
    ensures
        ({
            let entries = crate::media::indexed(base, segments)->Ok_0;
            &&& entries.len() == segments.len()
            &&& forall|i: int|
                0 <= i < entries.len() ==> crate::address::joined_url(base, segments[i].uri) == Ok::<
                    Seq<char>,
                    Seq<char>,
                >((#[trigger] entries[i]).url)
            &&& forall|i: int|
                0 <= i < entries.len() ==> (#[trigger] entries[i]).duration == segments[i].duration
        }),
    decreases segments.len(),
{
    if segments.len() > 0 {
        law_entry_urls_are_joined(base, segments.drop_last());
        let before = crate::media::indexed(base, segments.drop_last())->Ok_0;
        let entries = crate::media::indexed(base, segments)->Ok_0;
        assert forall|i: int| 0 <= i < entries.len() implies crate::address::joined_url(
            base,
            segments[i].uri,
        ) == Ok::<Seq<char>, Seq<char>>((#[trigger] entries[i]).url) by {
            if i < before.len() {
                assert(entries[i] == before[i]);
                assert(segments.drop_last()[i] == segments[i]);
            }
        }
        assert forall|i: int| 0 <= i < entries.len() implies (#[trigger] entries[i]).duration
            == segments[i].duration by {
            if i < before.len() {
                assert(entries[i] == before[i]);
                assert(segments.drop_last()[i] == segments[i]);
            }
        }
    }
}

/// An entry takes the whole resource where the segment has no byte range, and
/// else the range: from its offset on, or, without one, from the end of the range
/// of the entry before, which is then one of the same resource.
pub proof fn law_entry_ranges(base: Seq<char>, segments: Seq<SegmentModel>, i: int)
    requires
        crate::media::indexed(base, segments) is Ok,
        0 <= i < segments.len(),
    ensures
        ({
            let entries = crate::media::indexed(base, segments)->Ok_0;
            match segments[i].byte_range {
                None => entries[i].span is None,
                Some(range) => {
                    let span = entries[i].span->Some_0;
                    &&& entries[i].span is Some
                    &&& span.length == range.length
                    &&& span.offset + span.length <= 18446744073709551615
                    &&& match range.offset {
                        Some(offset) => span.offset == offset,
                        None => {
                            let last = entries[i - 1].span->Some_0;
                            &&& i > 0
                            &&& entries[i - 1].url == entries[i].url
                            &&& entries[i - 1].span is Some
                            &&& span.offset == last.offset + last.length
                        },
                    }
                },
            }
        }),
{
    crate::media::law_index_is_complete(base, segments);
    let entries = crate::media::indexed(base, segments)->Ok_0;
    assert(crate::media::entry(base, entries.take(i), segments[i]) == Ok::<EntryModel, ErrorModel>(
        entries[i],
    ));
    if i > 0 {
        assert(entries.take(i).last() == entries[i - 1]);
    }
}

/// The map of an entry is the segment's own, or else the one of the entry before.
/// Its URL is joined with the playlist's, and its range starts with the resource
/// where no offset is given.
pub proof fn law_entry_maps(base: Seq<char>, segments: Seq<SegmentModel>, i: int)
    requires
        crate::media::indexed(base, segments) is Ok,
        0 <= i < segments.len(),
    ensures
        ({
            let entries = crate::media::indexed(base, segments)->Ok_0;
            match segments[i].map {
                None => entries[i].map == (if i > 0 {
                    entries[i - 1].map
                } else {
                    None
                }),
                Some(map) => {
                    let place = entries[i].map->Some_0;
                    let span = place.span->Some_0;
                    &&& entries[i].map is Some
                    &&& crate::address::joined_url(base, map.uri) == Ok::<Seq<char>, Seq<char>>(
                        place.url,
                    )
                    &&& crate::address::http(place.url)
                    &&& match map.byte_range {
                        None => place.span is None,
                        Some(range) => {
                            &&& place.span is Some
                            &&& span.length == range.length
                            &&& span.offset + span.length <= 18446744073709551615
                            &&& match range.offset {
                                Some(offset) => span.offset == offset,
                                None => span.offset == 0,
                            }
                        },
                    }
                },
            }
        }),
{
    crate::media::law_index_is_complete(base, segments);
    let entries = crate::media::indexed(base, segments)->Ok_0;
    assert(crate::media::entry(base, entries.take(i), segments[i]) == Ok::<EntryModel, ErrorModel>(
        entries[i],
    ));
    if i > 0 {
        assert(entries.take(i).last() == entries[i - 1]);
    }
}

/// The first segment that is refused ends the index, whatever comes behind it,
/// and a playlist without segments has an empty one.
pub proof fn law_refusals_end_the_index(
    base: Seq<char>,
    segments: Seq<SegmentModel>,
    more: SegmentModel,
)
    ensures
        crate::media::indexed(base, segments) is Err ==> crate::media::indexed(
            base,
            segments.push(more),
        ) == crate::media::indexed(base, segments),
        crate::media::indexed(base, seq![]) == Ok::<Seq<EntryModel>, ErrorModel>(seq![]),
{
    assert(segments.push(more).drop_last() =~= segments);
}

/// Behind segments that are accepted, one is refused for beginning a
/// discontinuity, for its key, for its URI, for its duration, in this order.
pub proof fn law_refused_segments(base: Seq<char>, segments: Seq<SegmentModel>, s: SegmentModel)
    requires
        crate::media::indexed(base, segments) is Ok,
    ensures
        ({
            let r = crate::media::indexed(base, segments.push(s));
            let n = segments.len() as int;
            let joined = crate::address::joined_url(base, s.uri);
            &&& s.discontinuity ==> r == at_segment(n, Fault::Discontinuity, seq![], seq![])
            &&& !s.discontinuity && s.key_method is Some && s.key_method->Some_0 != "NONE"@ ==> r
                == at_segment(n, Fault::Encrypted, s.key_method->Some_0, seq![])
            &&& clear(s) && joined is Err ==> r == at_segment(
                n,
                Fault::InvalidUrl(Role::Segment),
                s.uri,
                joined->Err_0,
            )
            &&& clear(s) && joined is Ok && !crate::address::http(joined->Ok_0) ==> r == at_segment(
                n,
                Fault::UnsupportedScheme(Role::Segment),
                crate::address::scheme(joined->Ok_0),
                seq![],
            )
            &&& clear(s) && leads(base, s.uri) && !above_zero(s.duration) ==> r == at_segment(
                n,
                Fault::InvalidDuration,
                seq![],
                seq![],
            )
        }),
{
    assert(segments.push(s).drop_last() =~= segments);
    lemma_positive(s.duration);
}

/// A single is above zero where its pattern lies between those of zero and
/// infinity.
proof fn lemma_positive(bits: u32)
    ensures
        crate::media::positive(bits) <==> above_zero(bits),
{
    assert((0 < bits && bits < 0x7f80_0000) <==> (bits / 0x8000_0000 == 0 && bits / 0x80_0000
        % 0x100 < 0xff && bits > 0)) by (bit_vector);
}

/// Whether a segment, fine by itself, has no range that reaches too far or has
/// nothing to go on from, behind a list of entries.
pub open spec fn ranges_stand(entries: Seq<EntryModel>, url: Seq<char>, s: SegmentModel) -> bool {
    match s.byte_range {
        None => true,
        Some(range) => match range.offset {
            Some(offset) => offset + range.length <= 18446744073709551615,
            None => entries.len() > 0 && entries.last().url == url && entries.last().span is Some
                && (entries.last().span->Some_0).offset + (entries.last().span->Some_0).length
                + range.length <= 18446744073709551615,
        },
    }
}

/// Behind segments that are accepted, one that is fine by itself is refused where
/// its range goes on from nothing, or reaches too far.
pub proof fn law_refused_ranges(base: Seq<char>, segments: Seq<SegmentModel>, s: SegmentModel)
    requires
        crate::media::indexed(base, segments) is Ok,
        clear(s),
        leads(base, s.uri),
        above_zero(s.duration),
        s.byte_range is Some,
    ensures
        ({
            let r = crate::media::indexed(base, segments.push(s));
            let n = segments.len() as int;
            let entries = crate::media::indexed(base, segments)->Ok_0;
            let url = crate::address::joined_url(base, s.uri)->Ok_0;
            let range = s.byte_range->Some_0;
            &&& range.offset is None && (entries.len() == 0 || entries.last().url != url
                || entries.last().span is None) ==> r == at_segment(
                n,
                Fault::DanglingRange,
                seq![],
                seq![],
            )
            &&& range.offset is None && entries.len() > 0 && entries.last().url == url
                && entries.last().span is Some && (entries.last().span->Some_0).offset + (
            entries.last().span->Some_0).length + range.length > 18446744073709551615 ==> r
                == at_segment(n, Fault::RangeOverflow, seq![], seq![])
            &&& range.offset is Some && range.offset->Some_0 + range.length > 18446744073709551615
                ==> r == at_segment(n, Fault::RangeOverflow, seq![], seq![])
        }),
{
    assert(segments.push(s).drop_last() =~= segments);
    lemma_positive(s.duration);
}

/// Behind segments that are accepted, one that is fine but for its map is refused
/// for the map's URI, or where the map's range reaches too far.
pub proof fn law_refused_maps(base: Seq<char>, segments: Seq<SegmentModel>, s: SegmentModel)
    requires
        crate::media::indexed(base, segments) is Ok,
        clear(s),
        leads(base, s.uri),
        above_zero(s.duration),
        ranges_stand(
            crate::media::indexed(base, segments)->Ok_0,
            crate::address::joined_url(base, s.uri)->Ok_0,
            s,
        ),
        s.map is Some,
    ensures
        ({
            let r = crate::media::indexed(base, segments.push(s));
            let n = segments.len() as int;
            let map = s.map->Some_0;
            let joined = crate::address::joined_url(base, map.uri);
            let range = map.byte_range->Some_0;
            &&& joined is Err ==> r == at_segment(
                n,
                Fault::InvalidUrl(Role::InitializationMap),
                map.uri,
                joined->Err_0,
            )
            &&& joined is Ok && !crate::address::http(joined->Ok_0) ==> r == at_segment(
                n,
                Fault::UnsupportedScheme(Role::InitializationMap),
                crate::address::scheme(joined->Ok_0),
                seq![],
            )
            &&& leads(base, map.uri) && map.byte_range is Some && range.offset is Some
                && range.offset->Some_0 + range.length > 18446744073709551615 ==> r == at_segment(
                n,
                Fault::RangeOverflow,
                seq![],
                seq![],
            )
        }),
{
    assert(segments.push(s).drop_last() =~= segments);
    lemma_positive(s.duration);
}

/// Behind segments that are accepted, every other segment is accepted, and leaves
/// the entries before it as they are.
pub proof fn law_accepted_segments(base: Seq<char>, segments: Seq<SegmentModel>, s: SegmentModel)
    requires
        crate::media::indexed(base, segments) is Ok,
        clear(s),
        leads(base, s.uri),
        above_zero(s.duration),
        ranges_stand(
            crate::media::indexed(base, segments)->Ok_0,
            crate::address::joined_url(base, s.uri)->Ok_0,
            s,
        ),
        s.map matches Some(map) ==> leads(base, map.uri) && (map.byte_range matches Some(range)
            ==> (range.offset matches Some(offset) ==> offset + range.length
            <= 18446744073709551615)),
    ensures
        crate::media::indexed(base, segments.push(s)) is Ok,
        (crate::media::indexed(base, segments.push(s))->Ok_0).len() == segments.len() + 1,
        (crate::media::indexed(base, segments.push(s))->Ok_0).drop_last() == (
        crate::media::indexed(base, segments)->Ok_0),
{
    assert(segments.push(s).drop_last() =~= segments);
    lemma_positive(s.duration);
    crate::media::law_index_is_complete(base, segments);
    let before = crate::media::indexed(base, segments)->Ok_0;
    assert((crate::media::indexed(base, segments.push(s))->Ok_0).drop_last() =~= before);
}

/// A playlist is played exactly where it is finished, does not list I-frames
/// only, has segments, and all of them are accepted. The first of these that
/// fails is what it is refused for.
pub proof fn law_played_playlists(base: Seq<char>, media: MediaModel)
    ensures
        ({
            let r = crate::media::playable_index(base, media);
            let refused = |fault: Fault|
                Err::<Seq<EntryModel>, ErrorModel>(
                    ErrorModel { fault, segment: None, subject: seq![], reason: seq![] },
                );
            &&& !media.end_list ==> r == refused(Fault::LivePlaylist)
            &&& media.end_list && media.i_frames_only ==> r == refused(Fault::IFramesOnly)
            &&& media.end_list && !media.i_frames_only && media.segments.len() == 0 ==> r == refused(
                Fault::NoSegments,
            )
            &&& media.end_list && !media.i_frames_only && media.segments.len() > 0 ==> r
                == crate::media::indexed(base, media.segments)
        }),
{
}

/// The segment that a media time falls into is the last of those that have
/// started at the time with all before them; where the first has not started, it
/// is the first.
pub proof fn law_media_times_find_the_last_started(starts: Seq<Seconds>, time: Seconds, i: int)
    requires
        crate::media::falls_into(starts, time, i),
    ensures
        0 <= i < starts.len(),
        starts[0].at_most(time.clamped()) ==> forall|k: int|
            0 <= k <= i ==> (#[trigger] starts[k]).at_most(time.clamped()),
        starts[0].at_most(time.clamped()) && i + 1 < starts.len() ==> !starts[i + 1].at_most(
            time.clamped(),
        ),
        !starts[0].at_most(time.clamped()) ==> i == 0,
{
    if starts[0].at_most(time.clamped()) && i + 1 < starts.len() && starts[i + 1].at_most(
        time.clamped(),
    ) {
        assert(crate::media::started(starts, time, i + 2));
    }
    if !starts[0].at_most(time.clamped()) && i > 0 {
        assert(starts[0].at_most(time.clamped()));
    }
}

/// Later times fall into the same segment or into later ones.
pub proof fn law_later_times_fall_no_earlier(
    starts: Seq<Seconds>,
    early: Seconds,
    late: Seconds,
    i: int,
    j: int,
)
    requires
        crate::media::falls_into(starts, early, i),
        crate::media::falls_into(starts, late, j),
        early.clamped().at_most(late.clamped()),
    ensures
        i <= j,
{
    if j < i {
        assert forall|k: int| 0 <= k < j + 2 implies (#[trigger] starts[k]).at_most(
            late.clamped(),
        ) by {
            assert(starts[k].at_most(early.clamped()));
        }
        assert(crate::media::started(starts, late, j + 2));
    }
}

} // verus!
