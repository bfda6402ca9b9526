//! Segments: the format that their bytes tell, and what is read of them.

use vstd::prelude::*;
use crate::fault::Fault;
use crate::media::ByteSpan;
use crate::segment::{Format, ReadPlan, SeekTarget, SegmentView};

verus! {

/// Whether a segment has a sync byte at the head of its first and of its second
/// MPEG-TS packet, the second only where it has begun.
pub open spec fn synced(prefix: Seq<u8>) -> bool {
    prefix.len() > 0 && prefix[0] == 0x47 && (prefix.len() > 188 ==> prefix[188] == 0x47)
}

/// Whether bytes 4 to 8 spell `ftyp`, `moov` or `styp`.
pub open spec fn boxed(prefix: Seq<u8>) -> bool {
    &&& prefix.len() >= 8
    &&& {
        ||| prefix[4] == 0x66 && prefix[5] == 0x74 && prefix[6] == 0x79 && prefix[7] == 0x70
        ||| prefix[4] == 0x6d && prefix[5] == 0x6f && prefix[6] == 0x6f && prefix[7] == 0x76
        ||| prefix[4] == 0x73 && prefix[5] == 0x74 && prefix[6] == 0x79 && prefix[7] == 0x70
    }
}

/// Bytes 4 to 8 decide whether a segment opens like MP4.
proof fn lemma_boxes(prefix: Seq<u8>)
    ensures
        crate::segment::looks_mp4(prefix) <==> boxed(prefix),
{
    reveal_strlit("ftyp");
    reveal_strlit("moov");
    reveal_strlit("styp");
    if prefix.len() >= 8 {
        let name = prefix.subrange(4, 8);
        assert(name[0] == prefix[4] && name[1] == prefix[5] && name[2] == prefix[6] && name[3]
            == prefix[7]);
        let f = crate::bytes::ascii("ftyp"@);
        let m = crate::bytes::ascii("moov"@);
        let s = crate::bytes::ascii("styp"@);
        assert(f =~= seq![0x66u8, 0x74, 0x79, 0x70]);
        assert(m =~= seq![0x6du8, 0x6f, 0x6f, 0x76]);
        assert(s =~= seq![0x73u8, 0x74, 0x79, 0x70]);
        if boxed(prefix) {
            assert(name =~= f || name =~= m || name =~= s);
        }
    }
}

/// Every unmapped segment that opens with the bytes of `ID3`, and has no MP4 box
/// name at bytes 4 to 8, is packed audio, whatever follows. Mapped, it is refused.
pub proof fn law_packed_audio_by_its_mark(prefix: Seq<u8>)
    requires
        prefix.len() >= 3,
        prefix[0] == 0x49,
        prefix[1] == 0x44,
        prefix[2] == 0x33,
        !boxed(prefix),
    ensures
        crate::segment::format_of(prefix, false) == Ok::<Format, Fault>(Format::PackedAudio),
        crate::segment::format_of(prefix, true) == Err::<Format, Fault>(Fault::MappedPackedAudio),
{
    lemma_boxes(prefix);
    assert(prefix.take(3) =~= seq![0x49u8, 0x44, 0x33]);
}

/// A segment is MPEG-TS exactly where its sync bytes are in place, mapped or not.
pub proof fn law_transport_streams_by_sync_bytes(prefix: Seq<u8>, mapped: bool)
    ensures
        crate::segment::format_of(prefix, mapped) == Ok::<Format, Fault>(Format::MpegTs) <==> synced(
            prefix,
        ),
{
}

/// A segment without the sync bytes of MPEG-TS that has an MP4 box name at bytes
/// 4 to 8 is fMP4 where it is mapped, and refused where it is not.
pub proof fn law_mp4_by_its_box(prefix: Seq<u8>)
    requires
        boxed(prefix),
        !synced(prefix),
    ensures
        crate::segment::format_of(prefix, true) == Ok::<Format, Fault>(Format::Mp4),
        crate::segment::format_of(prefix, false) == Err::<Format, Fault>(Fault::UnmappedMp4),
{
    lemma_boxes(prefix);
}

/// Whatever else a segment opens with is refused.
pub proof fn law_other_formats_are_refused(prefix: Seq<u8>, mapped: bool)
    requires
        !synced(prefix),
        !boxed(prefix),
        prefix.len() < 3 || prefix[0] != 0x49 || prefix[1] != 0x44 || prefix[2] != 0x33,
    ensures
        crate::segment::format_of(prefix, mapped) == Err::<Format, Fault>(Fault::UnknownFormat),
{
    lemma_boxes(prefix);
    if prefix.len() >= 3 {
        let head = prefix.take(3);
        assert(head[0] == prefix[0] && head[1] == prefix[1] && head[2] == prefix[2]);
    }
}

/// A view opens exactly where its range lies within the resource and its length
/// in the range of positions. It then starts at its first byte, holds as much of
/// the map as there is, and takes of the resource the range, or all of it.
pub proof fn law_views_open_on_their_range(map_len: u64, span: Option<ByteSpan>, resource_len: u64)
    ensures
        SegmentView::opened(map_len, None, resource_len) is Ok <==> map_len + resource_len
            <= 18446744073709551615,
        SegmentView::opened(map_len, None, resource_len) matches Ok(view) ==> view.map_len
            == map_len && view.base == 0 && view.body_len == resource_len && view.position == 0,
        span matches Some(s) ==> (SegmentView::opened(map_len, span, resource_len) is Ok <==> s.offset
            + s.length <= resource_len && map_len + s.length <= 18446744073709551615),
        span matches Some(s) ==> (SegmentView::opened(map_len, span, resource_len) matches Ok(view)
            ==> view.map_len == map_len && view.base == s.offset && view.body_len == s.length
            && view.position == 0),
        SegmentView::opened(map_len, span, resource_len) matches Err(f) ==> f == Fault::Truncated,
{
}

/// The view holds the map, then the bytes of the resource from its base on.
pub proof fn law_view_bytes(view: SegmentView, map: Seq<u8>, resource: Seq<u8>, i: int)
    requires
        view.wf(),
        map.len() == view.map_len,
        view.base + view.body_len <= resource.len(),
        0 <= i < view.map_len + view.body_len,
    ensures
        view.content(map, resource).len() == view.map_len + view.body_len,
        view.content(map, resource)[i] == (if i < map.len() {
            map[i]
        } else {
            resource[view.base + i - map.len()]
        }),
{
}

/// A read within the map takes what is asked for, or the rest of the map.
pub proof fn law_reads_in_the_map(view: SegmentView, want: int)
    requires
        view.wf(),
        0 < want <= u64::MAX,
        view.position < view.map_len,
    ensures
        view.plan(want) matches ReadPlan::FromMap { offset, length } && offset == view.position
            && 0 < length <= want && view.position + length <= view.map_len && (length == want
            || view.position + length == view.map_len),
{
}

/// A read behind the map takes what is asked for, or the rest of the segment,
/// from as far behind the base as the position is behind the map.
pub proof fn law_reads_behind_the_map(view: SegmentView, want: int)
    requires
        view.wf(),
        0 < want <= u64::MAX,
        view.map_len <= view.position < view.map_len + view.body_len,
    ensures
        view.plan(want) matches ReadPlan::FromResource { offset, length } && offset - view.base
            == view.position - view.map_len && 0 < length <= want && view.position + length
            <= view.map_len + view.body_len && (length == want || view.position + length
            == view.map_len + view.body_len),
{
}

/// Nothing is read behind the end, and nothing where nothing is asked for.
pub proof fn law_reads_end_with_the_view(view: SegmentView, want: int)
    requires
        view.wf(),
        want == 0 || view.position >= view.map_len + view.body_len,
    ensures
        view.plan(want) == ReadPlan::Nothing,
{
}

/// A view is sound where its length, and the end of its range, lie in the range of
/// positions. Opening, moving on and seeking keep it sound.
pub proof fn law_views_stay_sound(
    view: SegmentView,
    map_len: u64,
    span: Option<ByteSpan>,
    resource_len: u64,
    count: u64,
    to: SeekTarget,
)
    ensures
        view.wf() <==> view.map_len + view.body_len <= 18446744073709551615 && view.base
            + view.body_len <= 18446744073709551615,
        SegmentView::opened(map_len, span, resource_len) matches Ok(opened) ==> opened.wf(),
        view.wf() ==> view.advanced(count).wf() && view.sought(to).1.wf(),
{
}

/// Moving on adds to the position, and changes nothing else.
pub proof fn law_moving_on(view: SegmentView, count: u64)
    requires
        view.position + count <= 18446744073709551615,
    ensures
        view.advanced(count).position == view.position + count,
        view.advanced(count).map_len == view.map_len,
        view.advanced(count).base == view.base,
        view.advanced(count).body_len == view.body_len,
{
}

/// The bytes that are probed, those of three MPEG-TS packets, decide the format:
/// a segment has the format of its probe.
pub proof fn law_probes_decide(bytes: Seq<u8>, mapped: bool)
    requires
        bytes.len() >= crate::segment::PROBE_BYTES,
    ensures
        crate::segment::format_of(bytes.take(crate::segment::PROBE_BYTES as int), mapped)
            == crate::segment::format_of(bytes, mapped),
        crate::segment::PROBE_BYTES == 3 * 188,
{
    let probe = bytes.take(crate::segment::PROBE_BYTES as int);
    assert(probe.subrange(4, 8) =~= bytes.subrange(4, 8));
    assert(probe.take(3) =~= bytes.take(3));
}

/// Seeks are counted from the start, from the end or from the position. Exactly
/// those that lead before the start or out of range are refused, and change
/// nothing; the others set the position that they return, and nothing else.
pub proof fn law_seeks_in_a_view(view: SegmentView, to: SeekTarget)
    ensures
        ({
            let reached: int = match to {
                SeekTarget::Start(offset) => offset as int,
                SeekTarget::End(delta) => view.map_len + view.body_len + delta,
                SeekTarget::Current(delta) => view.position + delta,
            };
            let (result, after) = view.sought(to);
            &&& result is Ok <==> 0 <= reached <= 18446744073709551615
            &&& result is Ok ==> result->Ok_0 == reached && after.position == reached
            &&& result is Err ==> result == Err::<u64, Fault>(Fault::SeekOutOfRange)
                && after.position == view.position
            &&& after.map_len == view.map_len && after.base == view.base && after.body_len
                == view.body_len
        }),
{
}

} // verus!
