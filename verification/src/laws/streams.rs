//! Streams: which layouts agree, where time starts, and what a seek goes by.

use vstd::prelude::*;
use crate::fault::Fault;
use crate::seconds::Seconds;
use crate::streams::{MediaKind, StreamKey};

verus! {

/// Segments are accepted exactly where they have as many streams as the source
/// advertises, each with the index, the kind and the codec of the one at its
/// place.
pub proof fn law_layouts_agree_stream_by_stream(expected: Seq<StreamKey>, actual: Seq<StreamKey>)
    ensures
        ({
            let verdict = crate::streams::layout_verdict(
                crate::streams::layout_of(expected),
                crate::streams::layout_of(actual),
            );
            &&& expected.len() != actual.len() ==> verdict == Err::<(), Fault>(
                Fault::StreamCountChanged,
            )
            &&& expected.len() == actual.len() && (exists|i: int|
                0 <= i < expected.len() && ((#[trigger] expected[i]).index != actual[i].index
                    || expected[i].kind != actual[i].kind || expected[i].codec@
                    != actual[i].codec@)) ==> verdict == Err::<(), Fault>(
                Fault::StreamLayoutChanged,
            )
            &&& expected.len() == actual.len() && (forall|i: int|
                0 <= i < expected.len() ==> (#[trigger] expected[i]).index == actual[i].index
                    && expected[i].kind == actual[i].kind && expected[i].codec@
                    == actual[i].codec@) ==> verdict is Ok
        }),
{
    let left = crate::streams::layout_of(expected);
    let right = crate::streams::layout_of(actual);
    if expected.len() == actual.len() {
        if left == right {
            assert forall|i: int| 0 <= i < expected.len() implies (#[trigger] expected[i]).index
                == actual[i].index && expected[i].kind == actual[i].kind && expected[i].codec@
                == actual[i].codec@ by {
                assert(left[i] == expected[i]@ && right[i] == actual[i]@);
            }
        } else if forall|i: int|
            0 <= i < expected.len() ==> (#[trigger] expected[i]).index == actual[i].index
                && expected[i].kind == actual[i].kind && expected[i].codec@ == actual[i].codec@ {
            assert forall|i: int| 0 <= i < left.len() implies left[i] == right[i] by {
                assert(expected[i].index == actual[i].index);
            }
            assert(left =~= right);
        }
    }
}

/// A seek is accepted exactly where it addresses a stream of the layout and its
/// target is a number.
pub proof fn law_accepted_seeks(streams: Seq<StreamKey>, requested: u32, target: Seconds)
    ensures
        ({
            let r = crate::streams::seek_stream(
                crate::streams::layout_of(streams),
                requested,
                target,
            );
            let there = exists|i: int|
                0 <= i < streams.len() && (#[trigger] streams[i]).index == requested;
            let number = target.bits % 0x8000_0000_0000_0000 < 0x7ff0_0000_0000_0000;
            &&& r is Ok <==> there && number
            &&& !there ==> r == Err::<u32, Fault>(Fault::NoSuchStream)
            &&& there && !number ==> r == Err::<u32, Fault>(Fault::SeekTargetNotFinite)
        }),
{
    let layout = crate::streams::layout_of(streams);
    assert(forall|i: int| 0 <= i < streams.len() ==> (#[trigger] layout[i]) == streams[i]@);
    if crate::streams::has_stream(layout, requested) {
        let i = choose|i: int| 0 <= i < layout.len() && (#[trigger] layout[i]).index == requested;
        assert(streams[i].index == requested);
    }
    if exists|i: int| 0 <= i < streams.len() && (#[trigger] streams[i]).index == requested {
        let i = choose|i: int|
            0 <= i < streams.len() && (#[trigger] streams[i]).index == requested;
        assert(layout[i].index == requested);
    }
}

/// The first video stream is found wherever it stands.
proof fn lemma_first_video(streams: Seq<StreamKey>, k: int)
    requires
        0 <= k <= streams.len(),
        forall|j: int| 0 <= j < k ==> (#[trigger] streams[j]).kind != MediaKind::Video,
        k < streams.len() ==> streams[k].kind == MediaKind::Video,
    ensures
        crate::streams::video_stream(crate::streams::layout_of(streams)) == (if k < streams.len() {
            Some(streams[k].index)
        } else {
            None
        }),
    decreases streams.len(),
{
    let layout = crate::streams::layout_of(streams);
    if streams.len() > 0 {
        assert(layout[0] == streams[0]@);
        if k > 0 {
            let rest = streams.skip(1);
            assert(streams[0].kind != MediaKind::Video);
            assert forall|j: int| 0 <= j < k - 1 implies (#[trigger] rest[j]).kind
                != MediaKind::Video by {
                assert(rest[j] == streams[j + 1]);
            }
            lemma_first_video(rest, k - 1);
            assert(layout.skip(1) =~= crate::streams::layout_of(rest));
        }
    }
}

/// Whenever a seek is accepted and some stream is a video stream, the seek goes
/// by the first of them, whichever stream was addressed.
pub proof fn law_seeks_go_by_the_first_video(
    streams: Seq<StreamKey>,
    requested: u32,
    target: Seconds,
    k: int,
)
    requires
        crate::streams::seek_stream(crate::streams::layout_of(streams), requested, target) is Ok,
        0 <= k < streams.len(),
        streams[k].kind == MediaKind::Video,
        forall|j: int| 0 <= j < k ==> (#[trigger] streams[j]).kind != MediaKind::Video,
    ensures
        crate::streams::seek_stream(crate::streams::layout_of(streams), requested, target) == Ok::<
            u32,
            Fault,
        >(streams[k].index),
{
    lemma_first_video(streams, k);
}

/// Only where no stream is a video stream does an accepted seek go by the stream
/// that it addresses.
pub proof fn law_seeks_without_video(streams: Seq<StreamKey>, requested: u32, target: Seconds)
    requires
        crate::streams::seek_stream(crate::streams::layout_of(streams), requested, target) is Ok,
        forall|j: int|
            0 <= j < streams.len() ==> (#[trigger] streams[j]).kind != MediaKind::Video,
    ensures
        crate::streams::seek_stream(crate::streams::layout_of(streams), requested, target) == Ok::<
            u32,
            Fault,
        >(requested),
{
    lemma_first_video(streams, streams.len() as int);
}

/// Whether there is a time that is a number at a place of a list.
pub open spec fn number_at(times: Seq<Option<Seconds>>, i: int) -> bool {
    &&& 0 <= i < times.len()
    &&& times[i] is Some
    &&& (times[i]->Some_0).bits % 0x8000_0000_0000_0000 < 0x7ff0_0000_0000_0000
}

/// The origin is a start time of a stream where some stream has one that is a
/// number, and a time of a packet where only packets have one. It lies behind no
/// other of that list; where there is none at all, there is no origin.
pub proof fn law_origin_comes_from_the_streams_first(
    streams: Seq<Option<Seconds>>,
    packets: Seq<Option<Seconds>>,
    r: Result<Seconds, Fault>,
    i: int,
)
    requires
        crate::streams::is_origin(streams, packets, r),
    ensures
        number_at(streams, i) ==> r is Ok && streams.contains(Some(r->Ok_0)) && (
        r->Ok_0).at_most(streams[i]->Some_0) && (r->Ok_0).rank() <= (streams[i]->Some_0).rank() && (r->Ok_0).bits % 0x8000_0000_0000_0000
            < 0x7ff0_0000_0000_0000,
        number_at(packets, i) && (forall|j: int| !number_at(streams, j)) ==> r is Ok
            && packets.contains(Some(r->Ok_0)) && (r->Ok_0).at_most(packets[i]->Some_0) && (
        r->Ok_0).rank() <= (packets[i]->Some_0).rank() && (
        r->Ok_0).bits % 0x8000_0000_0000_0000 < 0x7ff0_0000_0000_0000,
        (forall|j: int| !number_at(streams, j)) && (forall|j: int| !number_at(packets, j)) ==> r
            == Err::<Seconds, Fault>(Fault::NoTimestamps),
{
    assert forall|times: Seq<Option<Seconds>>, j: int| #[trigger]
        number_at(times, j) implies crate::streams::any_time(times) by {
        assert(crate::streams::known(times[j]));
    }
    if crate::streams::any_time(streams) {
        let j = choose|j: int|
            0 <= j < streams.len() && crate::streams::known(#[trigger] streams[j]);
        assert(number_at(streams, j));
    }
    if crate::streams::any_time(packets) {
        let j = choose|j: int|
            0 <= j < packets.len() && crate::streams::known(#[trigger] packets[j]);
        assert(number_at(packets, j));
    }
    if r is Ok {
        let times = if crate::streams::any_time(streams) {
            streams
        } else {
            packets
        };
        let time = r->Ok_0;
        assert(crate::streams::earliest(times, time));
        let j = choose|j: int| 0 <= j < times.len() && times[j] == Some(time);
        assert(number_at(times, j));
        if number_at(times, i) {
            assert(crate::streams::known(times[i]));
        }
    }
}

} // verus!
