//! The packet source: it delivers the packets of one segment after the other, so
//! that segment boundaries do not show, and keeps one successor prepared.

use vstd::prelude::*;
use std::collections::{HashSet, VecDeque};
use crate::fault::Fault;
use crate::media::segment_index_for_media_seconds;
use crate::seconds::Seconds;
use crate::streams::{plan_seek, validate_stream_layout, KeyModel, StreamKey};

verus! {

broadcast use vstd::std_specs::hash::group_hash_axioms;

/// The most packets that are read ahead of playback to learn the start times.
pub const MAX_PRIMED_PACKETS: usize = 256;

/// The packets that are read when a source opens, until each stream has shown a
/// timestamp. They are delivered again, unchanged.
pub struct Primer<P> {
    stream_count: usize,
    seen: HashSet<u32>,
    packets: VecDeque<P>,
}

/// What a primer holds.
#[verifier::ext_equal]
pub struct PrimerModel<P> {
    pub stream_count: nat,
    /// The streams that have shown a timestamp.
    pub seen: Set<u32>,
    pub packets: Seq<P>,
}

impl<P> View for Primer<P> {
    type V = PrimerModel<P>;

    closed spec fn view(&self) -> PrimerModel<P> {
        PrimerModel {
            stream_count: self.stream_count as nat,
            seen: self.seen@,
            packets: self.packets@,
        }
    }
}

impl<P> PrimerModel<P> {
    /// A primer that has read nothing yet.
    pub open spec fn fresh(stream_count: nat) -> PrimerModel<P> {
        PrimerModel { stream_count, seen: Set::empty(), packets: seq![] }
    }

    /// Whether another packet is wanted.
    pub open spec fn hungry(self) -> bool {
        self.seen.len() < self.stream_count && self.packets.len() < MAX_PRIMED_PACKETS
    }

    /// The primer after a packet of a stream.
    pub open spec fn fed(self, packet: P, stream: u32, timestamped: bool) -> PrimerModel<P> {
        PrimerModel {
            seen: if timestamped {
                self.seen.insert(stream)
            } else {
                self.seen
            },
            packets: self.packets.push(packet),
            ..self
        }
    }
}

impl<P> Primer<P> {
    /// A primer for a segment with a number of streams.
    pub fn new(stream_count: usize) -> (r: Primer<P>)
        ensures
            r@ == (PrimerModel::<P> {
                stream_count: stream_count as nat,
                seen: Set::empty(),
                packets: seq![],
            }),
            r@ == PrimerModel::<P>::fresh(stream_count as nat),
    {
        Primer { stream_count, seen: HashSet::new(), packets: VecDeque::new() }
    }

    /// Whether another packet is wanted.
    pub fn wants_more(&self) -> (r: bool)
        ensures
            r == self@.hungry(),
    {
        self.seen.len() < self.stream_count && self.packets.len() < MAX_PRIMED_PACKETS
    }

    /// Takes a packet of a stream.
    pub fn feed(&mut self, packet: P, stream: u32, timestamped: bool)
        ensures
            final(self)@ == old(self)@.fed(packet, stream, timestamped),
    {
        if timestamped {
            self.seen.insert(stream);
        }
        self.packets.push_back(packet);
    }

    /// The packets that were read, in the order in which they were.
    pub fn into_packets(self) -> (r: VecDeque<P>)
        ensures
            r@ == self@.packets,
    {
        self.packets
    }
}

/// What has happened to a source.
pub enum Event<P> {
    /// A packet was asked for.
    Asked,
    /// The current segment delivered a packet.
    Packet(P),
    /// The current segment is over.
    Ended,
    /// A segment was prepared, up to its first packet, if it has one.
    Prepared { index: usize, first: Option<P> },
    /// A seek has landed in a segment.
    Landed { index: usize },
}

/// What a source does next.
pub enum Step<P> {
    /// Hand a packet out.
    Deliver(P),
    /// Read the current segment.
    Read,
    /// Wait for the segment that is being prepared.
    Await { index: usize },
    /// Prepare a segment at once.
    Prepare { index: usize },
    /// Start to prepare the successor in the background, and go on.
    Readahead { index: usize },
    /// Go on; there is no successor.
    Continue,
    /// Everything was delivered.
    Finished,
}

/// A seek as it was asked for.
#[derive(Clone, Copy, Debug, PartialEq, Eq, Structural)]
pub struct SeekRequest {
    /// The stream that is addressed.
    pub stream_index: u32,
    /// The target, in that stream's ticks.
    pub pts: i64,
    /// The target on the transport timeline.
    pub raw: Seconds,
    /// The target on the media timeline.
    pub media: Seconds,
}

/// A seek that is to be tried in a segment.
#[derive(Clone, Copy, Debug, PartialEq, Eq, Structural)]
pub struct Seek {
    /// The stream that the seek goes by.
    pub stream: u32,
    pub pts: i64,
    /// The segment to open and to seek in.
    pub index: usize,
    /// Whether the seek comes from the segment behind.
    pub retry: bool,
}

/// How a seek in one segment went.
#[derive(Clone, Copy, Debug, PartialEq, Eq, Structural)]
pub enum Attempt {
    /// It landed at a timestamp.
    Landed(i64),
    /// The segment could not be opened, has other streams, or cannot seek there.
    Failed,
}

/// What a seek does next.
pub enum SeekStep<P> {
    /// Try a segment.
    Try(Seek),
    /// The seek has ended at a timestamp, and the source goes on with a step.
    Done { landed: i64, step: Step<P> },
    /// The seek has failed.
    Failed,
}

/// How a seek ended.
#[derive(Clone, Copy, Debug, PartialEq, Eq, Structural)]
pub enum Sought {
    /// It was refused before any segment was tried.
    Refused(Fault),
    /// A segment that it tried failed.
    Failed,
    /// It landed in a segment at a timestamp.
    Landed { index: usize, landed: i64 },
}

/// The progress of a source through its segments.
pub struct HlsPacketSource<P> {
    starts: Vec<Seconds>,
    streams: Vec<StreamKey>,
    segment_count: usize,
    current_segment: usize,
    pending: VecDeque<P>,
    readahead: Option<usize>,
}

/// What the progress says.
#[verifier::ext_equal]
pub struct SourceModel<P> {
    /// The media times at which the segments start.
    pub starts: Seq<Seconds>,
    /// The streams that the source advertises.
    pub streams: Seq<KeyModel>,
    pub segment_count: usize,
    pub current_segment: usize,
    /// Packets that were read and not yet delivered.
    pub pending: Seq<P>,
    /// The segment that is being prepared.
    pub readahead: Option<usize>,
}

impl<P> View for HlsPacketSource<P> {
    type V = SourceModel<P>;

    closed spec fn view(&self) -> SourceModel<P> {
        SourceModel {
            starts: self.starts@,
            streams: crate::streams::layout_of(self.streams@),
            segment_count: self.segment_count,
            current_segment: self.current_segment,
            pending: self.pending@,
            readahead: self.readahead,
        }
    }
}

impl<P> SourceModel<P> {
    /// A source at its first segment.
    pub open spec fn opened(starts: Seq<Seconds>, streams: Seq<KeyModel>, pending: Seq<P>) -> SourceModel<
        P,
    > {
        SourceModel {
            starts,
            streams,
            segment_count: starts.len() as usize,
            current_segment: 0,
            pending,
            readahead: None,
        }
    }

    /// The progress once a segment is being prepared.
    pub open spec fn preparing(self, index: usize) -> SourceModel<P> {
        SourceModel { readahead: Some(index), ..self }
    }

    /// The current segment is one of the segments, and what is being prepared is
    /// its successor.
    pub open spec fn wf(self) -> bool {
        &&& self.current_segment < self.segment_count
        &&& self.segment_count == self.starts.len()
        &&& self.readahead matches Some(index) ==> index == self.current_segment + 1 && index
            < self.segment_count
    }

    /// Whether an event can happen: only a segment of the source is prepared or
    /// landed in.
    pub open spec fn possible(self, event: Event<P>) -> bool {
        match event {
            Event::Prepared { index, .. } => index < self.segment_count,
            Event::Landed { index } => index < self.segment_count,
            _ => true,
        }
    }

    /// The step that starts the preparation of a segment's successor.
    pub open spec fn successor(self, index: usize) -> Step<P> {
        if index + 1 < self.segment_count {
            Step::Readahead { index: (index + 1) as usize }
        } else {
            Step::Continue
        }
    }

    /// The progress and the step after an event.
    pub open spec fn stepped(self, event: Event<P>) -> (SourceModel<P>, Step<P>) {
        match event {
            Event::Asked => if self.pending.len() > 0 {
                (
                    SourceModel { pending: self.pending.skip(1), ..self },
                    Step::Deliver(self.pending[0]),
                )
            } else {
                (self, Step::Read)
            },
            Event::Packet(packet) => (self, Step::Deliver(packet)),
            Event::Ended => if self.current_segment + 1 >= self.segment_count {
                (self, Step::Finished)
            } else {
                let next = (self.current_segment + 1) as usize;
                (
                    SourceModel { readahead: None, ..self },
                    if self.readahead == Some(next) {
                        Step::Await { index: next }
                    } else {
                        Step::Prepare { index: next }
                    },
                )
            },
            Event::Prepared { index, first } => (
                SourceModel {
                    current_segment: index,
                    pending: match first {
                        Some(packet) => seq![packet],
                        None => seq![],
                    },
                    readahead: None,
                    ..self
                },
                self.successor(index),
            ),
            Event::Landed { index } => (
                SourceModel {
                    current_segment: index,
                    pending: seq![],
                    readahead: None,
                    ..self
                },
                self.successor(index),
            ),
        }
    }

    /// Where a seek is tried first, or why it is refused: it goes by the stream
    /// that `seek_stream` tells, in the segment that its media time falls into.
    pub open spec fn planned(self, request: SeekRequest) -> Result<Seek, Fault> {
        match crate::streams::seek_stream(self.streams, request.stream_index, request.raw) {
            Err(f) => Err(f),
            Ok(stream) => Ok(
                Seek {
                    stream,
                    pts: request.pts,
                    index: crate::media::segment_at(self.starts, request.media) as usize,
                    retry: false,
                },
            ),
        }
    }

    /// The progress and what a seek does next after an attempt. The progress
    /// changes only where the seek has landed for good.
    pub open spec fn attempted(self, seek: Seek, attempt: Attempt) -> (SourceModel<P>, SeekStep<P>) {
        match attempt {
            Attempt::Failed => (self, SeekStep::Failed),
            Attempt::Landed(landed) => {
                let before = retried(seek.index, landed, seek.pts);
                if !seek.retry && before is Some {
                    (self, SeekStep::Try(Seek { index: before->Some_0, retry: true, ..seek }))
                } else {
                    let (after, step) = self.stepped(Event::Landed { index: seek.index });
                    (after, SeekStep::Done { landed, step })
                }
            },
        }
    }

    /// The progress after a whole seek, and how it ended. The seek hears of a
    /// second attempt only where it makes one.
    pub open spec fn sought(self, request: SeekRequest, first: Attempt, second: Attempt) -> (
        SourceModel<P>,
        Sought,
    ) {
        match self.planned(request) {
            Err(f) => (self, Sought::Refused(f)),
            Ok(seek) => match self.attempted(seek, first) {
                (after, SeekStep::Failed) => (after, Sought::Failed),
                (after, SeekStep::Done { landed, .. }) => (
                    after,
                    Sought::Landed { index: seek.index, landed },
                ),
                (after, SeekStep::Try(again)) => match after.attempted(again, second) {
                    (after, SeekStep::Done { landed, .. }) => (
                        after,
                        Sought::Landed { index: again.index, landed },
                    ),
                    (after, _) => (after, Sought::Failed),
                },
            },
        }
    }
}

impl<P> HlsPacketSource<P> {
    /// A source at its first segment, with the packets that were read from it.
    pub fn new(starts: Vec<Seconds>, streams: Vec<StreamKey>, pending: VecDeque<P>) -> (r:
        HlsPacketSource<P>)
        requires
            starts@.len() > 0,
        ensures
            r@.wf(),
            r@ == (SourceModel {
                starts: starts@,
                streams: crate::streams::layout_of(streams@),
                segment_count: starts@.len() as usize,
                current_segment: 0,
                pending: pending@,
                readahead: None,
            }),
            r@ == SourceModel::opened(
                starts@,
                crate::streams::layout_of(streams@),
                pending@,
            ),
    {
        let segment_count: usize = starts.len();
        HlsPacketSource {
            starts,
            streams,
            segment_count,
            current_segment: 0,
            pending,
            readahead: None,
        }
    }

    /// The segment that is being played.
    pub fn current_segment(&self) -> (r: usize)
        ensures
            r == self@.current_segment,
    {
        self.current_segment
    }

    /// The segment that is being prepared.
    pub fn readahead(&self) -> (r: Option<usize>)
        ensures
            r == self@.readahead,
    {
        self.readahead
    }

    /// The step that starts the preparation of the current segment's successor.
    pub fn start_readahead(&self) -> (r: Step<P>)
        requires
            self@.wf(),
        ensures
            r == self@.successor(self@.current_segment),
    {
        if self.current_segment + 1 < self.segment_count {
            Step::Readahead { index: self.current_segment + 1 }
        } else {
            Step::Continue
        }
    }

    /// Notes that the successor is being prepared. Without this note it is
    /// prepared when it is needed.
    pub fn readahead_started(&mut self, index: usize)
        requires
            old(self)@.wf(),
            index == old(self)@.current_segment + 1,
            index < old(self)@.segment_count,
        ensures
            final(self)@.wf(),
            final(self)@ == (SourceModel { readahead: Some(index), ..old(self)@ }),
            final(self)@ == old(self)@.preparing(index),
    {
        self.readahead = Some(index);
    }

    /// Takes an event in and decides what is done next.
    pub fn step(&mut self, event: Event<P>) -> (r: Step<P>)
        requires
            old(self)@.wf(),
            old(self)@.possible(event),
        ensures
            final(self)@.wf(),
            (final(self)@, r) == old(self)@.stepped(event),
    {
        let ghost before = self@;
        match event {
            Event::Asked => match self.pending.pop_front() {
                Some(packet) => {
                    assert(self@.pending =~= before.pending.skip(1));
                    Step::Deliver(packet)
                },
                None => {
                    assert(self@ =~= before);
                    Step::Read
                },
            },
            Event::Packet(packet) => Step::Deliver(packet),
            Event::Ended => {
                if self.current_segment + 1 >= self.segment_count {
                    return Step::Finished;
                }
                let next: usize = self.current_segment + 1;
                let prepared: bool = match self.readahead {
                    Some(index) => index == next,
                    None => false,
                };
                self.readahead = None;
                if prepared {
                    Step::Await { index: next }
                } else {
                    Step::Prepare { index: next }
                }
            },
            Event::Prepared { index, first } => {
                self.install(index);
                if let Some(packet) = first {
                    self.pending.push_back(packet);
                    assert(self@.pending =~= seq![packet]);
                }
                self.start_readahead()
            },
            Event::Landed { index } => {
                self.install(index);
                self.start_readahead()
            },
        }
    }

    /// Accepts a segment that has the streams which the source advertises.
    pub fn accepts(&self, actual: &[StreamKey]) -> (r: Result<(), Fault>)
        ensures
            r == (if self@.streams.len() != actual@.len() {
                Err(Fault::StreamCountChanged)
            } else if self@.streams != crate::streams::layout_of(actual@) {
                Err(Fault::StreamLayoutChanged)
            } else {
                Ok(())
            }),
            r == crate::streams::layout_verdict(self@.streams, crate::streams::layout_of(actual@)),
    {
        validate_stream_layout(self.streams.as_slice(), actual)
    }

    /// Plans a seek. Nothing is opened for a seek that is refused, and the source
    /// stays as it is in any case.
    pub fn seek_to(&self, request: SeekRequest) -> (r: Result<Seek, Fault>)
        requires
            self@.wf(),
        ensures
            r == self@.planned(request),
            r matches Ok(seek) ==> seek.index < self@.segment_count,
    {
        let stream: u32 = match plan_seek(
            self.streams.as_slice(),
            request.stream_index,
            request.raw,
        ) {
            Ok(stream) => stream,
            Err(f) => {
                return Err(f);
            },
        };
        let index: usize = segment_index_for_media_seconds(self.starts.as_slice(), request.media);
        Ok(Seek { stream, pts: request.pts, index, retry: false })
    }

    /// Takes in how a seek went in the segment that was to be tried. A seek that
    /// failed, or that goes on elsewhere, leaves the source as it is.
    pub fn seek_attempted(&mut self, seek: Seek, attempt: Attempt) -> (r: SeekStep<P>)
        requires
            old(self)@.wf(),
            seek.index < old(self)@.segment_count,
        ensures
            final(self)@.wf(),
            (final(self)@, r) == old(self)@.attempted(seek, attempt),
            r matches SeekStep::Try(again) ==> again.index < old(self)@.segment_count,
    {
        let landed: i64 = match attempt {
            Attempt::Landed(landed) => landed,
            Attempt::Failed => {
                return SeekStep::Failed;
            },
        };
        if !seek.retry {
            if let Some(before) = retry_seek(seek.index, landed, seek.pts) {
                return SeekStep::Try(
                    Seek { stream: seek.stream, pts: seek.pts, index: before, retry: true },
                );
            }
        }
        let step = self.step(Event::Landed { index: seek.index });
        SeekStep::Done { landed, step }
    }

    /// Makes a segment the current one. What was prepared or read before is void.
    fn install(&mut self, index: usize)
        requires
            old(self)@.wf(),
            index < old(self)@.segment_count,
        ensures
            final(self)@.wf(),
            final(self)@ == (SourceModel {
                current_segment: index,
                pending: seq![],
                readahead: None,
                ..old(self)@
            }),
    {
        self.current_segment = index;
        self.pending.clear();
        self.readahead = None;
        assert(self@.pending =~= seq![]);
    }
}

/// Where a seek goes on after it landed in a segment: to the one before, if it
/// landed behind its target and there is one.
pub open spec fn retried(index: usize, landed: i64, target: i64) -> Option<usize> {
    if landed > target && index > 0 {
        Some((index - 1) as usize)
    } else {
        None
    }
}

/// Decides whether a seek that landed in a segment is retried in the one before.
pub fn retry_seek(index: usize, landed: i64, target: i64) -> (r: Option<usize>)
    ensures
        r == retried(index, landed, target),
{
    if landed > target && index > 0 {
        Some(index - 1)
    } else {
        None
    }
}

/// The segment that a seek ends in, `landings` telling where it lands in each.
pub open spec fn settled(landings: Seq<i64>, index: usize, target: i64) -> usize {
    match retried(index, landings[index as int], target) {
        Some(before) => before,
        None => index,
    }
}

/// A seek ends at or before its target wherever the segment that the target falls
/// into, or the one before it, has a place to land there; and it leaves the first
/// of the two only if it has none.
pub proof fn law_seek_lands_at_or_before(landings: Seq<i64>, index: usize, target: i64)
    requires
        index < landings.len(),
    ensures
        ({
            let end = settled(landings, index, target);
            &&& end < landings.len()
            &&& landings[index as int] <= target ==> end == index
            &&& index > 0 && landings[index - 1] <= target ==> landings[end as int] <= target
            &&& landings[end as int] > target ==> landings[index as int] > target && (index == 0
                || landings[index - 1] > target)
        }),
{
}

/// A seek that is refused or fails leaves the source as it was, whichever attempt
/// failed. One that addresses no stream is always refused.
pub proof fn law_failed_seeks_change_nothing<P>(
    source: SourceModel<P>,
    request: SeekRequest,
    first: Attempt,
    second: Attempt,
)
    requires
        source.wf(),
    ensures
        source.sought(request, first, second).1 !is Landed ==> source.sought(
            request,
            first,
            second,
        ).0 == source,
        !crate::streams::has_stream(source.streams, request.stream_index) ==> source.sought(
            request,
            first,
            second,
        ).1 == Sought::Refused(Fault::NoSuchStream),
        first is Failed ==> source.sought(request, first, second).1 !is Landed,
{
}

/// A seek ends in the segment that its media time falls into, at the place where
/// it landed there, if that lies at or before its target or there is no segment
/// before; no second segment is tried. Else it ends in the segment before, where
/// it landed there, or fails. Where it ends, the source goes on as after a
/// landing: what was queued or prepared before is void.
pub proof fn law_seek_settles<P>(
    source: SourceModel<P>,
    request: SeekRequest,
    first: i64,
    second: Attempt,
)
    requires
        source.wf(),
        source.planned(request) is Ok,
    ensures
        ({
            let index = (source.planned(request)->Ok_0).index;
            let (after, end) = source.sought(request, Attempt::Landed(first), second);
            &&& crate::media::falls_into(source.starts, request.media, index as int)
            &&& if first <= request.pts || index == 0 {
                &&& end == Sought::Landed { index, landed: first }
                &&& after == source.stepped(Event::Landed { index }).0
            } else {
                match second {
                    Attempt::Failed => end == Sought::Failed && after == source,
                    Attempt::Landed(landed) => {
                        let before = (index - 1) as usize;
                        &&& end == Sought::Landed { index: before, landed }
                        &&& after == source.stepped(Event::Landed { index: before }).0
                    },
                }
            }
            &&& after.wf()
            &&& end is Landed ==> after.pending.len() == 0 && after.readahead is None
        }),
{
    crate::media::law_media_time_has_a_segment(source.starts, request.media);
}

/// Where both segments have a place to land, a seek ends in the one that `settled`
/// tells, at the place that it has there.
pub proof fn law_seek_ends_where_it_settles<P>(
    source: SourceModel<P>,
    request: SeekRequest,
    landings: Seq<i64>,
)
    requires
        source.wf(),
        source.planned(request) is Ok,
        landings.len() == source.segment_count,
    ensures
        ({
            let index = (source.planned(request)->Ok_0).index;
            let end = settled(landings, index, request.pts);
            let first = Attempt::Landed(landings[index as int]);
            let second = Attempt::Landed(landings[index - 1]);
            source.sought(request, first, second) == (
                source.stepped(Event::Landed { index: end }).0,
                Sought::Landed { index: end, landed: landings[end as int] },
            )
        }),
{
    crate::media::law_media_time_has_a_segment(source.starts, request.media);
}

/// No event changes what a source advertises: its streams and its segments.
pub proof fn law_streams_never_change<P>(source: SourceModel<P>, event: Event<P>)
    ensures
        source.stepped(event).0.streams == source.streams,
        source.stepped(event).0.starts == source.starts,
        source.stepped(event).0.segment_count == source.segment_count,
{
}

/// What is prepared is always the successor of the current segment, through every
/// event.
pub proof fn law_readahead_is_the_successor<P>(source: SourceModel<P>, event: Event<P>)
    requires
        source.wf(),
        source.possible(event),
    ensures
        source.stepped(event).0.wf(),
        source.stepped(event).1 matches Step::Readahead { index } ==> index == source.stepped(
            event,
        ).0.current_segment + 1 && index < source.segment_count,
        event is Landed ==> source.stepped(event).0.readahead is None && source.stepped(
            event,
        ).0.pending.len() == 0,
{
}

/// A successor that could not be prepared in the background is prepared when it
/// is needed, and again if that failed.
pub proof fn law_failed_readahead_is_retried<P>(source: SourceModel<P>)
    requires
        source.wf(),
        source.current_segment + 1 < source.segment_count,
    ensures
        ({
            let next = (source.current_segment + 1) as usize;
            let (after, step) = source.stepped(Event::Ended);
            &&& step == (if source.readahead is Some {
                Step::<P>::Await { index: next }
            } else {
                Step::<P>::Prepare { index: next }
            })
            &&& after.stepped(Event::Ended).1 == (Step::<P>::Prepare { index: next })
        }),
{
}

/// A packet as a segment yields it: with its stream, and whether it carries a
/// timestamp.
pub struct Yield<P> {
    pub packet: P,
    pub stream: u32,
    pub timestamped: bool,
}

/// The packets of what a segment yields.
pub open spec fn packets_of<P>(yields: Seq<Yield<P>>) -> Seq<P> {
    Seq::new(yields.len(), |i: int| yields[i].packet)
}

/// A primer fed from a segment for as long as it wants more and there is more.
pub open spec fn primed<P>(primer: PrimerModel<P>, yields: Seq<Yield<P>>) -> PrimerModel<P>
    decreases yields.len(),
{
    if primer.hungry() && yields.len() > 0 {
        let next = yields[0];
        primed(primer.fed(next.packet, next.stream, next.timestamped), yields.skip(1))
    } else {
        primer
    }
}

/// Priming reads packets from the start of a segment on and keeps them in order.
/// It reads no more than its bound, and stops early only if every stream has
/// shown a timestamp or the segment is over.
pub proof fn law_priming_reads_a_prefix<P>(primer: PrimerModel<P>, yields: Seq<Yield<P>>)
    requires
        primer.packets.len() <= MAX_PRIMED_PACKETS,
    ensures
        ({
            let after = primed(primer, yields);
            let read = after.packets.len() - primer.packets.len();
            &&& 0 <= read <= yields.len()
            &&& after.packets == primer.packets + packets_of(yields).take(read)
            &&& after.packets.len() <= MAX_PRIMED_PACKETS
            &&& read == yields.len() || !after.hungry()
        }),
    decreases yields.len(),
{
    if primer.hungry() && yields.len() > 0 {
        let next = yields[0];
        let fed = primer.fed(next.packet, next.stream, next.timestamped);
        law_priming_reads_a_prefix(fed, yields.skip(1));
        let after = primed(primer, yields);
        let read = after.packets.len() - primer.packets.len();
        assert(packets_of(yields.skip(1)).take(read - 1) =~= packets_of(yields).take(read).skip(1));
        assert(after.packets =~= primer.packets + packets_of(yields).take(read));
    } else {
        assert(primer.packets + packets_of(yields).take(0) =~= primer.packets);
    }
}

} // verus!
