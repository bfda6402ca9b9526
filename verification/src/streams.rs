//! The streams of a source: their layout, which all segments share, their
//! transport origin, and the stream that a seek goes by.

use vstd::prelude::*;
use crate::fault::Fault;
use crate::seconds::Seconds;
use crate::text::same_text;

verus! {

/// What a stream carries.
#[derive(Clone, Copy, Debug, PartialEq, Eq, Structural)]
pub enum MediaKind {
    Audio,
    Video,
    Subtitle,
    Data,
    Unknown,
}

/// What identifies a stream across segments.
#[derive(Debug)]
pub struct StreamKey {
    pub index: u32,
    pub kind: MediaKind,
    pub codec: String,
}

/// What a stream's key says.
#[verifier::ext_equal]
pub struct KeyModel {
    pub index: u32,
    pub kind: MediaKind,
    pub codec: Seq<char>,
}

impl View for StreamKey {
    type V = KeyModel;

    open spec fn view(&self) -> KeyModel {
        KeyModel { index: self.index, kind: self.kind, codec: self.codec@ }
    }
}

/// The layout that a list of streams has.
pub open spec fn layout_of(v: Seq<StreamKey>) -> Seq<KeyModel> {
    Seq::new(v.len(), |i: int| v[i]@)
}

/// What becomes of a segment that has a layout, where the source advertises
/// another or the same.
pub open spec fn layout_verdict(expected: Seq<KeyModel>, actual: Seq<KeyModel>) -> Result<
    (),
    Fault,
> {
    if expected.len() != actual.len() {
        Err(Fault::StreamCountChanged)
    } else if expected != actual {
        Err(Fault::StreamLayoutChanged)
    } else {
        Ok(())
    }
}

/// Accepts a segment whose streams are those that the source advertises: as many,
/// and the same at each place.
pub fn validate_stream_layout(expected: &[StreamKey], actual: &[StreamKey]) -> (r: Result<
    (),
    Fault,
>)
    ensures
        r == (if expected@.len() != actual@.len() {
            Err(Fault::StreamCountChanged)
        } else if layout_of(expected@) != layout_of(actual@) {
            Err(Fault::StreamLayoutChanged)
        } else {
            Ok(())
        }),
        r == layout_verdict(layout_of(expected@), layout_of(actual@)),
{
    if expected.len() != actual.len() {
        return Err(Fault::StreamCountChanged);
    }
    let ghost left = layout_of(expected@);
    let ghost right = layout_of(actual@);
    let mut i: usize = 0;
    while i < expected.len()
        invariant
            i <= expected@.len(),
            expected@.len() == actual@.len(),
            left == layout_of(expected@),
            right == layout_of(actual@),
            forall|j: int| 0 <= j < i ==> left[j] == right[j],
        decreases expected@.len() - i,
    {
        let a = &expected[i];
        let b = &actual[i];
        assert(left[i as int] == a@ && right[i as int] == b@);
        if a.index != b.index || a.kind != b.kind || !same_text(a.codec.as_str(), b.codec.as_str()) {
            assert(left != right) by {
                if left == right {
                    assert(left[i as int] == right[i as int]);
                }
            }
            return Err(Fault::StreamLayoutChanged);
        }
        i += 1;
    }
    assert(left =~= right);
    Ok(())
}

/// Whether some stream has an index.
pub open spec fn has_stream(layout: Seq<KeyModel>, index: u32) -> bool {
    exists|i: int| 0 <= i < layout.len() && (#[trigger] layout[i]).index == index
}

/// The index of the first video stream.
pub open spec fn video_stream(layout: Seq<KeyModel>) -> Option<u32>
    decreases layout.len(),
{
    if layout.len() == 0 {
        None
    } else if layout[0].kind == MediaKind::Video {
        Some(layout[0].index)
    } else {
        video_stream(layout.skip(1))
    }
}

/// The stream that a seek goes by which addresses the stream `requested` and has
/// the target `target` on the transport timeline: the first video stream, so that
/// it lands where video can be decoded from, or the stream that it addresses.
pub open spec fn seek_stream(layout: Seq<KeyModel>, requested: u32, target: Seconds) -> Result<
    u32,
    Fault,
> {
    if !has_stream(layout, requested) {
        Err(Fault::NoSuchStream)
    } else if !target.finite() {
        Err(Fault::SeekTargetNotFinite)
    } else {
        match video_stream(layout) {
            Some(index) => Ok(index),
            None => Ok(requested),
        }
    }
}

/// Finds the stream that a seek goes by.
pub fn plan_seek(streams: &[StreamKey], requested: u32, target: Seconds) -> (r: Result<u32, Fault>)
    ensures
        r == seek_stream(layout_of(streams@), requested, target),
{
    let ghost layout = layout_of(streams@);
    let mut addressed: bool = false;
    let mut video: Option<u32> = None;
    let mut i: usize = 0;
    assert(layout.skip(0) =~= layout);
    while i < streams.len()
        invariant
            i <= streams@.len(),
            layout == layout_of(streams@),
            addressed == exists|j: int| 0 <= j < i && (#[trigger] layout[j]).index == requested,
            match video {
                Some(index) => video_stream(layout) == Some(index),
                None => video_stream(layout) == video_stream(layout.skip(i as int)),
            },
        decreases streams@.len() - i,
    {
        let stream = &streams[i];
        assert(layout[i as int] == stream@);
        assert(layout.skip(i as int)[0] == stream@);
        assert(layout.skip(i as int).skip(1) =~= layout.skip(i + 1));
        if stream.index == requested {
            addressed = true;
        }
        if video.is_none() && stream.kind == MediaKind::Video {
            video = Some(stream.index);
        }
        i += 1;
    }
    if !addressed {
        return Err(Fault::NoSuchStream);
    }
    if !target.is_finite() {
        return Err(Fault::SeekTargetNotFinite);
    }
    match video {
        Some(index) => Ok(index),
        None => Ok(requested),
    }
}

/// Whether there is a time, and it is a number.
pub open spec fn known(time: Option<Seconds>) -> bool {
    time is Some && (time->Some_0).finite()
}

/// Whether a list of times holds a number.
pub open spec fn any_time(times: Seq<Option<Seconds>>) -> bool {
    exists|i: int| 0 <= i < times.len() && known(#[trigger] times[i])
}

/// Whether a time is the earliest number of a list.
pub open spec fn earliest(times: Seq<Option<Seconds>>, time: Seconds) -> bool {
    &&& time.finite()
    &&& times.contains(Some(time))
    &&& forall|i: int|
        0 <= i < times.len() && known(#[trigger] times[i]) ==> time.rank() <= (
        times[i]->Some_0).rank()
}

fn find_earliest(times: &[Option<Seconds>]) -> (r: Option<Seconds>)
    ensures
        match r {
            Some(time) => earliest(times@, time),
            None => !any_time(times@),
        },
{
    let mut best: Option<Seconds> = None;
    let mut i: usize = 0;
    while i < times.len()
        invariant
            i <= times@.len(),
            match best {
                Some(time) => earliest(times@.take(i as int), time),
                None => !any_time(times@.take(i as int)),
            },
        decreases times@.len() - i,
    {
        let ghost before = times@.take(i as int);
        let ghost after = times@.take(i + 1);
        assert(forall|j: int| 0 <= j < i ==> before[j] == after[j]);
        assert(after[i as int] == times@[i as int]);
        let ghost was = best;
        if let Some(t) = times[i] {
            if t.is_finite() {
                let earlier: bool = match best {
                    Some(time) => t.precedes(time),
                    None => true,
                };
                if earlier {
                    best = Some(t);
                }
            }
        }
        proof {
            match best {
                Some(time) => {
                    if best == was {
                        let k = choose|k: int| 0 <= k < before.len() && before[k] == Some(time);
                        assert(after[k] == Some(time));
                    } else {
                        assert(after[i as int] == Some(time));
                    }
                    assert forall|j: int|
                        0 <= j < after.len() && known(#[trigger] after[j]) implies time.rank() <= (
                    after[j]->Some_0).rank() by {
                        if j < i {
                            assert(before[j] == after[j]);
                        }
                    }
                    assert(earliest(after, time));
                },
                None => {
                    assert forall|j: int| 0 <= j < after.len() implies !known(
                        #[trigger] after[j],
                    ) by {
                        if j < i {
                            assert(before[j] == after[j]);
                        }
                    }
                },
            }
        }
        i += 1;
    }
    assert(times@.take(i as int) =~= times@);
    best
}

/// Whether a result is the transport origin of a source: the earliest start time
/// of a stream, or, where no stream has one, the earliest time of a packet.
pub open spec fn is_origin(
    streams: Seq<Option<Seconds>>,
    packets: Seq<Option<Seconds>>,
    r: Result<Seconds, Fault>,
) -> bool {
    match r {
        Ok(time) => earliest(
            if any_time(streams) {
                streams
            } else {
                packets
            },
            time,
        ),
        Err(f) => f == Fault::NoTimestamps && !any_time(streams) && !any_time(packets),
    }
}

/// Finds the transport origin of a source: the earliest start time of a stream,
/// or, where no stream has one, the earliest time of a packet.
pub fn transport_origin(streams: &[Option<Seconds>], packets: &[Option<Seconds>]) -> (r: Result<
    Seconds,
    Fault,
>)
    ensures
        match r {
            Ok(time) => if any_time(streams@) {
                earliest(streams@, time)
            } else {
                any_time(packets@) && earliest(packets@, time)
            },
            Err(f) => f == Fault::NoTimestamps && !any_time(streams@) && !any_time(packets@),
        },
        is_origin(streams@, packets@, r),
{
    let first: Option<Seconds> = find_earliest(streams);
    proof {
        assert forall|times: Seq<Option<Seconds>>, time: Seconds|
            earliest(times, time) implies any_time(times) by {
            let k = choose|k: int| 0 <= k < times.len() && times[k] == Some(time);
            assert(known(times[k]));
        }
    }
    match first {
        Some(time) => Ok(time),
        None => match find_earliest(packets) {
            Some(time) => Ok(time),
            None => Err(Fault::NoTimestamps),
        },
    }
}

/// The earliest time of a list is one time.
pub proof fn law_origin_is_unique(times: Seq<Option<Seconds>>, a: Seconds, b: Seconds)
    requires
        earliest(times, a),
        earliest(times, b),
    ensures
        a == b,
{
    let i = choose|i: int| 0 <= i < times.len() && times[i] == Some(a);
    let j = choose|j: int| 0 <= j < times.len() && times[j] == Some(b);
    assert(known(times[i]) && known(times[j]));
    assert(a.rank() == b.rank());
}

} // verus!
