//! The progress of a source, event by event.

use vstd::prelude::*;
use crate::fault::Fault;
use crate::seconds::Seconds;
use crate::source::{
    Attempt,
    Event,
    PrimerModel,
    Seek,
    SeekRequest,
    SeekStep,
    SourceModel,
    Step,
};
use crate::streams::{KeyModel, MediaKind, StreamKey};

verus! {

/// Whether two sources have the same segments and advertise the same streams.
pub open spec fn same_stream<P>(a: SourceModel<P>, b: SourceModel<P>) -> bool {
    a.starts == b.starts && a.streams == b.streams && a.segment_count == b.segment_count
}

/// A source opens at its first segment, with the packets that were read from it,
/// and nothing in preparation. Noting a preparation changes nothing else.
pub proof fn law_opened_sources<P>(
    starts: Seq<Seconds>,
    streams: Seq<KeyModel>,
    pending: Seq<P>,
    index: usize,
)
    requires
        starts.len() <= usize::MAX,
    ensures
        ({
            let source = SourceModel::opened(starts, streams, pending);
            let noted = source.preparing(index);
            &&& source.starts == starts
            &&& source.streams == streams
            &&& source.segment_count == starts.len()
            &&& source.current_segment == 0
            &&& source.pending == pending
            &&& source.readahead is None
            &&& same_stream(noted, source)
            &&& noted.current_segment == 0
            &&& noted.pending == pending
            &&& noted.readahead == Some(index)
        }),
{
}

/// Noting a preparation changes what is prepared, and nothing else.
pub proof fn law_noted_preparations<P>(source: SourceModel<P>, index: usize)
    ensures
        same_stream(source.preparing(index), source),
        source.preparing(index).current_segment == source.current_segment,
        source.preparing(index).pending == source.pending,
        source.preparing(index).readahead == Some(index),
{
}

/// A source is sound where its current segment is one of its segments and only the
/// next one is in preparation. It opens sound, and notes of the next segment keep
/// it so.
pub proof fn law_sources_stay_sound<P>(
    source: SourceModel<P>,
    starts: Seq<Seconds>,
    streams: Seq<KeyModel>,
    pending: Seq<P>,
    index: usize,
)
    ensures
        source.wf() <==> source.current_segment < source.segment_count && source.segment_count
            == source.starts.len() && (source.readahead is None || (source.readahead->Some_0
            == source.current_segment + 1 && source.readahead->Some_0 < source.segment_count)),
        0 < starts.len() <= usize::MAX ==> SourceModel::opened(starts, streams, pending).wf(),
        source.wf() && index == source.current_segment + 1 && index < source.segment_count
            ==> source.preparing(index).wf(),
{
}

/// Every event can happen that names one of the segments, or none.
pub proof fn law_possible_events<P>(source: SourceModel<P>, packet: P, index: usize, first: Option<P>)
    ensures
        source.possible(Event::Asked),
        source.possible(Event::Packet(packet)),
        source.possible(Event::Ended),
        source.possible(Event::Prepared { index, first }) <==> index < source.segment_count,
        source.possible(Event::Landed { index }) <==> index < source.segment_count,
{
}

/// What was read before is delivered first, in order; only when there is nothing
/// of it the segment is read.
pub proof fn law_asked_sources<P>(source: SourceModel<P>)
    ensures
        ({
            let (after, step) = source.stepped(Event::Asked);
            &&& source.pending.len() == 0 ==> step == Step::<P>::Read && after == source
            &&& source.pending.len() > 0 ==> step == Step::Deliver(source.pending[0])
                && source.pending == seq![source.pending[0]] + after.pending && same_stream(
                after,
                source,
            ) && after.current_segment == source.current_segment && after.readahead
                == source.readahead
        }),
{
    if source.pending.len() > 0 {
        assert(source.pending =~= seq![source.pending[0]] + source.pending.skip(1));
    }
}

/// A packet of the segment is delivered as it is.
pub proof fn law_packets_pass_through<P>(source: SourceModel<P>, packet: P)
    ensures
        source.stepped(Event::Packet(packet)) == (source, Step::Deliver(packet)),
{
}

/// At the end of a segment, its successor is awaited if it is the one in
/// preparation, and else prepared. Behind the last segment there is nothing more.
pub proof fn law_ended_segments<P>(source: SourceModel<P>)
    requires
        source.wf(),
    ensures
        ({
            let (after, step) = source.stepped(Event::Ended);
            let next = source.current_segment + 1;
            &&& next == source.segment_count ==> step == Step::<P>::Finished && after == source
            &&& next < source.segment_count ==> {
                &&& source.readahead == Some(next as usize) ==> step == (Step::<P>::Await {
                    index: next as usize,
                })
                &&& source.readahead != Some(next as usize) ==> step == (Step::<P>::Prepare {
                    index: next as usize,
                })
                &&& same_stream(after, source)
                &&& after.current_segment == source.current_segment
                &&& after.pending == source.pending
                &&& after.readahead is None
            }
        }),
{
}

/// A segment that was prepared becomes the current one, with its first packet as
/// the one to deliver, and a segment that a seek landed in likewise, with none.
/// The successor's preparation starts, where there is one.
pub proof fn law_installed_segments<P>(source: SourceModel<P>, index: usize, first: Option<P>)
    requires
        source.wf(),
        index < source.segment_count,
    ensures
        ({
            let (prepared, step) = source.stepped(Event::Prepared { index, first });
            let (landed, follows) = source.stepped(Event::Landed { index });
            &&& same_stream(prepared, source) && same_stream(landed, source)
            &&& prepared.current_segment == index && landed.current_segment == index
            &&& prepared.readahead is None && landed.readahead is None
            &&& first is Some ==> prepared.pending.len() == 1 && prepared.pending[0]
                == first->Some_0
            &&& first is None ==> prepared.pending.len() == 0
            &&& landed.pending.len() == 0
            &&& step == follows
            &&& index + 1 < source.segment_count ==> step == (Step::<P>::Readahead {
                index: (index + 1) as usize,
            })
            &&& index + 1 == source.segment_count ==> step == Step::<P>::Continue
        }),
{
}

/// The segment that is prepared behind another is the next one, if there is one.
pub proof fn law_successors<P>(source: SourceModel<P>, index: usize)
    requires
        index < source.segment_count,
    ensures
        index + 1 < source.segment_count ==> source.successor(index) == (Step::<P>::Readahead {
            index: (index + 1) as usize,
        }),
        index + 1 == source.segment_count ==> source.successor(index) == Step::<P>::Continue,
{
}

/// A planned seek keeps its target, and is tried in the segment that its media
/// time falls into. It goes by the stream that the layout tells for its transport
/// time, and is refused for the same reasons.
pub proof fn law_planned_seeks<P>(source: SourceModel<P>, request: SeekRequest)
    requires
        source.wf(),
    ensures
        ({
            let stream = crate::streams::seek_stream(
                source.streams,
                request.stream_index,
                request.raw,
            );
            let r = source.planned(request);
            &&& stream is Err ==> r == Err::<Seek, Fault>(stream->Err_0)
            &&& stream is Ok ==> {
                let seek = r->Ok_0;
                &&& r is Ok
                &&& seek.stream == stream->Ok_0
                &&& seek.pts == request.pts
                &&& !seek.retry
                &&& crate::media::falls_into(source.starts, request.media, seek.index as int)
            }
        }),
{
    crate::media::law_media_time_has_a_segment(source.starts, request.media);
}

/// A planned seek goes by the first video stream, whichever stream it addresses.
pub proof fn law_planned_seeks_go_by_the_first_video<P>(
    source: SourceModel<P>,
    streams: Seq<StreamKey>,
    request: SeekRequest,
    k: int,
)
    requires
        source.streams == crate::streams::layout_of(streams),
        source.planned(request) is Ok,
        0 <= k < streams.len(),
        streams[k].kind == MediaKind::Video,
        forall|j: int| 0 <= j < k ==> (#[trigger] streams[j]).kind != MediaKind::Video,
    ensures
        (source.planned(request)->Ok_0).stream == streams[k].index,
{
    crate::laws::streams::law_seeks_go_by_the_first_video(
        streams,
        request.stream_index,
        request.raw,
        k,
    );
}

/// A seek that landed behind its target is tried once more, by the same stream
/// and for the same target, in the segment before, if there is one. Any other
/// landing ends it there.
pub proof fn law_attempted_seeks<P>(source: SourceModel<P>, seek: Seek, landed: i64)
    requires
        source.wf(),
        seek.index < source.segment_count,
    ensures
        source.attempted(seek, Attempt::Failed) == (source, SeekStep::<P>::Failed),
        ({
            let (after, step) = source.attempted(seek, Attempt::Landed(landed));
            let again = landed > seek.pts && seek.index > 0 && !seek.retry;
            &&& again ==> {
                let next = step->Try_0;
                &&& after == source
                &&& step is Try
                &&& next.index == seek.index - 1
                &&& next.retry
                &&& next.stream == seek.stream
                &&& next.pts == seek.pts
            }
            &&& !again ==> {
                &&& step is Done
                &&& step->landed == landed
                &&& same_stream(after, source)
                &&& after.current_segment == seek.index
                &&& after.pending.len() == 0
                &&& after.readahead is None
                &&& seek.index + 1 < source.segment_count ==> step->step == (Step::<P>::Readahead {
                    index: (seek.index + 1) as usize,
                })
                &&& seek.index + 1 == source.segment_count ==> step->step == Step::<P>::Continue
            }
        }),
{
}

/// The segment before is tried exactly where a seek landed behind its target and
/// there is one.
pub proof fn law_retried_seeks(index: usize, landed: i64, target: i64)
    ensures
        crate::source::retried(index, landed, target) is Some <==> landed > target && index > 0,
        crate::source::retried(index, landed, target) matches Some(before) ==> before + 1 == index,
{
}

/// Priming starts with nothing. It goes on while some stream has not shown a
/// timestamp and fewer than 256 packets were read. It keeps each packet behind
/// those before, and notes the stream of each that has a timestamp.
pub proof fn law_primed_packets<P>(
    primer: PrimerModel<P>,
    count: nat,
    packet: P,
    stream: u32,
    other: u32,
    timestamped: bool,
)
    ensures
        PrimerModel::<P>::fresh(count).stream_count == count,
        PrimerModel::<P>::fresh(count).packets.len() == 0,
        !PrimerModel::<P>::fresh(count).seen.contains(stream),
        primer.hungry() <==> primer.seen.len() < primer.stream_count && primer.packets.len() < 256,
        ({
            let after = primer.fed(packet, stream, timestamped);
            &&& after.stream_count == primer.stream_count
            &&& after.packets == primer.packets.push(packet)
            &&& after.seen.contains(other) <==> primer.seen.contains(other) || (timestamped && other
                == stream)
        }),
{
}

} // verus!
