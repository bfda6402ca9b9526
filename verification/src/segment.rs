//! One segment: its format, which its bytes tell, and the view in which its
//! initialization map precedes it.

use vstd::prelude::*;
use crate::fault::Fault;
use crate::media::ByteSpan;

verus! {

/// How many bytes of a segment are probed for its format.
pub const PROBE_BYTES: usize = 564;

/// The format of a segment.
#[derive(Clone, Copy, Debug, PartialEq, Eq, Structural)]
pub enum Format {
    MpegTs,
    Mp4,
    PackedAudio,
}

/// Whether a segment opens like MPEG-TS: a sync byte, and one more behind the
/// first packet where there is more.
pub open spec fn looks_ts(prefix: Seq<u8>) -> bool {
    prefix.len() > 0 && prefix[0] == 0x47 && (prefix.len() <= 188 || prefix[188] == 0x47)
}

/// Whether a segment opens with a box of an MP4 file.
pub open spec fn looks_mp4(prefix: Seq<u8>) -> bool {
    prefix.len() >= 8 && {
        let name = prefix.subrange(4, 8);
        name == crate::bytes::ascii("ftyp"@) || name == crate::bytes::ascii("moov"@) || name
            == crate::bytes::ascii("styp"@)
    }
}

/// Whether a segment opens with an ID3 tag.
pub open spec fn looks_id3(prefix: Seq<u8>) -> bool {
    prefix.len() >= 3 && prefix.take(3) == crate::packed_audio::demuxer::id3_mark()
}

/// The format of a segment, `mapped` telling whether a map is in force: fMP4
/// needs one, packed audio must not have one.
pub open spec fn format_of(prefix: Seq<u8>, mapped: bool) -> Result<Format, Fault> {
    if looks_ts(prefix) {
        Ok(Format::MpegTs)
    } else if looks_mp4(prefix) {
        if mapped {
            Ok(Format::Mp4)
        } else {
            Err(Fault::UnmappedMp4)
        }
    } else if looks_id3(prefix) {
        if mapped {
            Err(Fault::MappedPackedAudio)
        } else {
            Ok(Format::PackedAudio)
        }
    } else {
        Err(Fault::UnknownFormat)
    }
}

fn is_box_name(name: &[u8]) -> (r: bool)
    requires
        name@.len() == 4,
    ensures
        r == (name@ == crate::bytes::ascii("ftyp"@) || name@ == crate::bytes::ascii("moov"@)
            || name@ == crate::bytes::ascii("styp"@)),
{
    proof {
        reveal_strlit("ftyp");
        reveal_strlit("moov");
        reveal_strlit("styp");
    }
    crate::bytes::is_ascii_text(name, "ftyp") || crate::bytes::is_ascii_text(name, "moov")
        || crate::bytes::is_ascii_text(name, "styp")
}

/// Detects the format of a segment from its first bytes.
pub fn detect(prefix: &[u8], mapped: bool) -> (r: Result<Format, Fault>)
    ensures
        r == format_of(prefix@, mapped),
{
    if prefix.len() > 0 && prefix[0] == 0x47 && (prefix.len() <= 188 || prefix[188] == 0x47) {
        return Ok(Format::MpegTs);
    }
    if prefix.len() >= 8 && is_box_name(vstd::slice::slice_subrange(prefix, 4, 8)) {
        return if mapped {
            Ok(Format::Mp4)
        } else {
            Err(Fault::UnmappedMp4)
        };
    }
    proof {
        if prefix@.len() >= 3 {
            let head = prefix@.take(3);
            let mark = crate::packed_audio::demuxer::id3_mark();
            assert(head[0] == prefix@[0] && head[1] == prefix@[1] && head[2] == prefix@[2]);
            if prefix@[0] == mark[0] && prefix@[1] == mark[1] && prefix@[2] == mark[2] {
                assert(head =~= mark);
            }
        }
    }
    if prefix.len() >= 3 && prefix[0] == 0x49 && prefix[1] == 0x44 && prefix[2] == 0x33 {
        return if mapped {
            Err(Fault::MappedPackedAudio)
        } else {
            Ok(Format::PackedAudio)
        };
    }
    Err(Fault::UnknownFormat)
}

/// Where a seek in a view leads.
#[derive(Clone, Copy, Debug, PartialEq, Eq, Structural)]
pub enum SeekTarget {
    Start(u64),
    End(i64),
    Current(i64),
}

/// What a read in a view comes to.
#[derive(Clone, Copy, Debug, PartialEq, Eq, Structural)]
pub enum ReadPlan {
    /// The view is over, or nothing was asked for.
    Nothing,
    /// Bytes of the map.
    FromMap { offset: u64, length: u64 },
    /// Bytes of the segment's resource.
    FromResource { offset: u64, length: u64 },
}

/// The view of a segment: the bytes of its map, followed by the bytes of its
/// resource that belong to it.
#[derive(Clone, Copy, Debug, PartialEq, Eq, Structural)]
pub struct SegmentView {
    /// The length of the map.
    pub map_len: u64,
    /// Where the segment starts in its resource.
    pub base: u64,
    /// The length of the segment.
    pub body_len: u64,
    /// The reading position.
    pub position: u64,
}

impl SegmentView {
    /// The lengths fit the range of positions.
    pub open spec fn wf(self) -> bool {
        self.map_len + self.body_len <= u64::MAX && self.base + self.body_len <= u64::MAX
    }

    /// The length of the view.
    pub open spec fn total(self) -> int {
        self.map_len + self.body_len
    }

    /// The bytes of the view, given those of the map and of the resource.
    pub open spec fn content(self, map: Seq<u8>, resource: Seq<u8>) -> Seq<u8> {
        map + resource.subrange(self.base as int, self.base + self.body_len)
    }

    /// The view of a segment that takes a range of its resource, or all of it.
    pub open spec fn opened(map_len: u64, span: Option<ByteSpan>, resource_len: u64) -> Result<
        SegmentView,
        Fault,
    > {
        let (base, body_len): (u64, u64) = match span {
            Some(span) => (span.offset, span.length),
            None => (0, resource_len),
        };
        if base + body_len > resource_len || map_len + body_len > u64::MAX {
            Err(Fault::Truncated)
        } else {
            Ok(SegmentView { map_len, base, body_len, position: 0 })
        }
    }

    /// Opens the view of a segment that takes a range of its resource, or all of
    /// it. The range must lie within the resource.
    pub fn new(map_len: u64, span: Option<ByteSpan>, resource_len: u64) -> (r: Result<
        SegmentView,
        Fault,
    >)
        ensures
            ({
                let base: int = match span {
                    Some(span) => span.offset as int,
                    None => 0,
                };
                let body_len: int = match span {
                    Some(span) => span.length as int,
                    None => resource_len as int,
                };
                if base + body_len > resource_len || map_len + body_len > u64::MAX {
                    r == Err::<SegmentView, Fault>(Fault::Truncated)
                } else {
                    &&& r matches Ok(view)
                    &&& view.wf()
                    &&& view.map_len == map_len
                    &&& view.base == base
                    &&& view.body_len == body_len
                    &&& view.position == 0
                }
            }),
            r == Self::opened(map_len, span, resource_len),
    {
        let (base, body_len): (u64, u64) = match span {
            Some(span) => (span.offset, span.length),
            None => (0, resource_len),
        };
        let inside: bool = match base.checked_add(body_len) {
            Some(end) => end <= resource_len,
            None => false,
        };
        if !inside || map_len.checked_add(body_len).is_none() {
            return Err(Fault::Truncated);
        }
        Ok(SegmentView { map_len, base, body_len, position: 0 })
    }

    /// What a read of at most `want` bytes comes to.
    pub open spec fn plan(self, want: int) -> ReadPlan {
        if want == 0 || self.position >= self.total() {
            ReadPlan::Nothing
        } else if self.position < self.map_len {
            let rest = self.map_len - self.position;
            ReadPlan::FromMap {
                offset: self.position,
                length: (if want < rest {
                    want
                } else {
                    rest
                }) as u64,
            }
        } else {
            let rest = self.total() - self.position;
            ReadPlan::FromResource {
                offset: (self.base + (self.position - self.map_len)) as u64,
                length: (if want < rest {
                    want
                } else {
                    rest
                }) as u64,
            }
        }
    }

    /// Plans a read of at most `want` bytes.
    pub fn read_plan(&self, want: u64) -> (r: ReadPlan)
        requires
            self.wf(),
        ensures
            r == self.plan(want as int),
    {
        let total: u64 = self.map_len + self.body_len;
        if want == 0 || self.position >= total {
            ReadPlan::Nothing
        } else if self.position < self.map_len {
            let rest: u64 = self.map_len - self.position;
            ReadPlan::FromMap {
                offset: self.position,
                length: if want < rest {
                    want
                } else {
                    rest
                },
            }
        } else {
            let rest: u64 = total - self.position;
            ReadPlan::FromResource {
                offset: self.base + (self.position - self.map_len),
                length: if want < rest {
                    want
                } else {
                    rest
                },
            }
        }
    }

    /// The view behind bytes that were read.
    pub open spec fn advanced(self, count: u64) -> SegmentView {
        SegmentView { position: (self.position + count) as u64, ..self }
    }

    /// Moves on over bytes that were read.
    pub fn advance(&mut self, count: u64)
        requires
            old(self).wf(),
            old(self).position + count <= old(self).total(),
        ensures
            *final(self) == (SegmentView {
                position: (old(self).position + count) as u64,
                ..*old(self)
            }),
            *final(self) == old(self).advanced(count),
    {
        self.position = self.position + count;
    }

    /// Where a seek leads, which may lie behind the end.
    pub open spec fn target(self, to: SeekTarget) -> int {
        match to {
            SeekTarget::Start(offset) => offset as int,
            SeekTarget::End(delta) => self.total() + delta,
            SeekTarget::Current(delta) => self.position + delta,
        }
    }

    /// What a seek returns, and the view behind it.
    pub open spec fn sought(self, to: SeekTarget) -> (Result<u64, Fault>, SegmentView) {
        if 0 <= self.target(to) <= u64::MAX {
            (
                Ok(self.target(to) as u64),
                SegmentView { position: self.target(to) as u64, ..self },
            )
        } else {
            (Err(Fault::SeekOutOfRange), self)
        }
    }

    /// Seeks in the view. A position before the start, or out of range, is
    /// refused and leaves the view as it is.
    pub fn seek(&mut self, to: SeekTarget) -> (r: Result<u64, Fault>)
        requires
            old(self).wf(),
        ensures
            if 0 <= old(self).target(to) <= u64::MAX {
                &&& r == Ok::<u64, Fault>(old(self).target(to) as u64)
                &&& *final(self) == (SegmentView {
                    position: old(self).target(to) as u64,
                    ..*old(self)
                })
            } else {
                r == Err::<u64, Fault>(Fault::SeekOutOfRange) && *final(self) == *old(self)
            },
            (r, *final(self)) == old(self).sought(to),
    {
        let target: i128 = match to {
            SeekTarget::Start(offset) => offset as i128,
            SeekTarget::End(delta) => self.map_len as i128 + self.body_len as i128 + delta as i128,
            SeekTarget::Current(delta) => self.position as i128 + delta as i128,
        };
        if target < 0 || target > u64::MAX as i128 {
            return Err(Fault::SeekOutOfRange);
        }
        self.position = target as u64;
        Ok(self.position)
    }
}

/// Whatever a read is planned to deliver is what the view holds at its position,
/// and it is something unless the view is over or nothing was asked for.
pub proof fn law_reads_deliver_the_view(
    view: SegmentView,
    map: Seq<u8>,
    resource: Seq<u8>,
    want: int,
)
    requires
        view.wf(),
        map.len() == view.map_len,
        view.base + view.body_len <= resource.len(),
        0 <= want,
    ensures
        ({
            let content = view.content(map, resource);
            &&& content.len() == view.total()
            &&& match view.plan(want) {
                ReadPlan::Nothing => want == 0 || view.position >= content.len(),
                ReadPlan::FromMap { offset, length } => {
                    &&& 0 < length <= want
                    &&& offset + length <= map.len()
                    &&& view.position + length <= content.len()
                    &&& map.subrange(offset as int, offset + length) == content.subrange(
                        view.position as int,
                        view.position + length,
                    )
                },
                ReadPlan::FromResource { offset, length } => {
                    &&& 0 < length <= want
                    &&& offset + length <= resource.len()
                    &&& view.position + length <= content.len()
                    &&& resource.subrange(offset as int, offset + length) == content.subrange(
                        view.position as int,
                        view.position + length,
                    )
                },
            }
        }),
{
    let content = view.content(map, resource);
    match view.plan(want) {
        ReadPlan::Nothing => {},
        ReadPlan::FromMap { offset, length } => {
            assert(map.subrange(offset as int, offset + length) =~= content.subrange(
                view.position as int,
                view.position + length,
            ));
        },
        ReadPlan::FromResource { offset, length } => {
            assert(resource.subrange(offset as int, offset + length) =~= content.subrange(
                view.position as int,
                view.position + length,
            ));
        },
    }
}

/// The bytes that reads of at most `want` bytes deliver from the view's position
/// on, each moving on over what it delivered.
pub open spec fn drained(view: SegmentView, map: Seq<u8>, resource: Seq<u8>, want: int) -> Seq<u8>
    decreases view.total() - view.position,
    when view.wf() && 0 < want
{
    match view.plan(want) {
        ReadPlan::Nothing => seq![],
        ReadPlan::FromMap { offset, length } => map.subrange(offset as int, offset + length)
            + drained(
            SegmentView { position: (view.position + length) as u64, ..view },
            map,
            resource,
            want,
        ),
        ReadPlan::FromResource { offset, length } => resource.subrange(
            offset as int,
            offset + length,
        ) + drained(
            SegmentView { position: (view.position + length) as u64, ..view },
            map,
            resource,
            want,
        ),
    }
}

/// Reading on to the end delivers the rest of the view, however much is asked for
/// at a time.
pub proof fn law_reading_on_delivers_the_rest(
    view: SegmentView,
    map: Seq<u8>,
    resource: Seq<u8>,
    want: int,
)
    requires
        view.wf(),
        view.position <= view.total(),
        map.len() == view.map_len,
        view.base + view.body_len <= resource.len(),
        0 < want,
    ensures
        drained(view, map, resource, want) == view.content(map, resource).skip(
            view.position as int,
        ),
    decreases view.total() - view.position,
{
    law_reads_deliver_the_view(view, map, resource, want);
    let content = view.content(map, resource);
    let rest = content.skip(view.position as int);
    match view.plan(want) {
        ReadPlan::Nothing => {
            assert(rest =~= seq![]);
        },
        ReadPlan::FromMap { offset, length } => {
            let next = SegmentView { position: (view.position + length) as u64, ..view };
            law_reading_on_delivers_the_rest(next, map, resource, want);
            assert(rest =~= content.subrange(view.position as int, view.position + length)
                + content.skip(view.position + length));
        },
        ReadPlan::FromResource { offset, length } => {
            let next = SegmentView { position: (view.position + length) as u64, ..view };
            law_reading_on_delivers_the_rest(next, map, resource, want);
            assert(rest =~= content.subrange(view.position as int, view.position + length)
                + content.skip(view.position + length));
        },
    }
}

/// Only a mapped segment is played as fMP4, and only an unmapped one as packed
/// audio; nothing unknown is taken for MPEG-TS.
pub proof fn law_maps_agree_with_formats(prefix: Seq<u8>, mapped: bool)
    ensures
        format_of(prefix, mapped) == Ok::<Format, Fault>(Format::Mp4) ==> mapped,
        format_of(prefix, mapped) == Ok::<Format, Fault>(Format::PackedAudio) ==> !mapped,
        format_of(prefix, mapped) == Ok::<Format, Fault>(Format::MpegTs) ==> looks_ts(prefix),
        !looks_ts(prefix) && !looks_mp4(prefix) && !looks_id3(prefix) ==> format_of(prefix, mapped)
            == Err::<Format, Fault>(Fault::UnknownFormat),
{
}

} // verus!
