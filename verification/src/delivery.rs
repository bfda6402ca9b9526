//! What a source delivers as a whole, given what its segments hold: every packet
//! of every segment in order, and after a seek what follows its landing.

use vstd::prelude::*;
use crate::source::{Attempt, Event, PrimerModel, SeekRequest, Sought, SourceModel, Step, Yield};

verus! {

/// A source together with what its segments still hold.
pub struct World<P> {
    pub source: SourceModel<P>,
    /// The packets that the current segment has not delivered yet.
    pub rest: Seq<P>,
    /// The packets of all segments.
    pub segments: Seq<Seq<P>>,
    /// Whether a segment can be prepared in the background.
    pub ahead: spec_fn(usize) -> bool,
}

/// A seek in one segment that landed: where, and what the segment then delivers.
pub struct Landing<P> {
    pub landed: i64,
    pub rest: Seq<P>,
}

/// How a seek in one segment went, as the source hears of it.
pub open spec fn attempt_of<P>(landing: Option<Landing<P>>) -> Attempt {
    match landing {
        Some(landing) => Attempt::Landed(landing.landed),
        None => Attempt::Failed,
    }
}

/// The packets of the segments from `i` on, in order.
pub open spec fn packets_from<P>(segments: Seq<Seq<P>>, i: int) -> Seq<P>
    decreases segments.len() - i,
{
    if i < 0 || i >= segments.len() {
        seq![]
    } else {
        segments[i] + packets_from(segments, i + 1)
    }
}

impl<P> World<P> {
    /// The source is one of these segments.
    pub open spec fn wf(self) -> bool {
        self.source.wf() && self.source.segment_count == self.segments.len()
    }

    /// What is still to be delivered.
    pub open spec fn remaining(self) -> Seq<P> {
        self.source.pending + (self.rest + packets_from(
            self.segments,
            self.source.current_segment + 1,
        ))
    }

    /// The source once it has followed the step behind an installed segment: the
    /// successor is being prepared, if it can be.
    pub open spec fn noted(self, after: (SourceModel<P>, Step<P>)) -> SourceModel<P> {
        match after.1 {
            Step::Readahead { index } => if (self.ahead)(index) {
                SourceModel { readahead: Some(index), ..after.0 }
            } else {
                after.0
            },
            _ => after.0,
        }
    }

    /// Asks for a packet and follows the steps until one is delivered or all were.
    pub open spec fn pull(self) -> (World<P>, Option<P>)
        decreases self.source.segment_count - self.source.current_segment,
        when self.wf()
    {
        match self.source.stepped(Event::Asked) {
            (source, Step::Deliver(packet)) => (World { source, ..self }, Some(packet)),
            (source, _) => if self.rest.len() > 0 {
                match source.stepped(Event::Packet(self.rest[0])) {
                    (source, Step::Deliver(packet)) => (
                        World { source, rest: self.rest.skip(1), ..self },
                        Some(packet),
                    ),
                    (source, _) => (World { source, ..self }, None),
                }
            } else {
                match source.stepped(Event::Ended) {
                    (source, Step::Await { index }) => self.enter(source, index).pull(),
                    (source, Step::Prepare { index }) => self.enter(source, index).pull(),
                    (source, _) => (World { source, ..self }, None),
                }
            },
        }
    }

    /// Goes on in a segment that was prepared.
    pub open spec fn enter(self, source: SourceModel<P>, index: usize) -> World<P> {
        let packets = self.segments[index as int];
        if packets.len() > 0 {
            let event = Event::Prepared { index, first: Some(packets[0]) };
            World { source: self.noted(source.stepped(event)), rest: packets.skip(1), ..self }
        } else {
            let event = Event::Prepared { index, first: None };
            World { source: self.noted(source.stepped(event)), rest: seq![], ..self }
        }
    }

    /// The world after `n` packets were asked for.
    pub open spec fn after(self, n: nat) -> World<P>
        decreases n,
    {
        if n == 0 {
            self
        } else {
            self.after((n - 1) as nat).pull().0
        }
    }

    /// What asking for a packet gives after `n` were asked for; nothing where all
    /// were delivered.
    pub open spec fn answer(self, n: nat) -> Option<P> {
        self.after(n).pull().1
    }

    /// The world after a seek, and how it ended. A seek that landed goes on with
    /// the segment in which it did; any other leaves the current one in place.
    pub open spec fn seek(
        self,
        request: SeekRequest,
        first: Option<Landing<P>>,
        second: Option<Landing<P>>,
    ) -> (World<P>, Sought) {
        let (source, end) = self.source.sought(request, attempt_of(first), attempt_of(second));
        match end {
            Sought::Landed { index, .. } => {
                let landing = if index == (self.source.planned(request)->Ok_0).index {
                    first
                } else {
                    second
                };
                let step = self.source.successor(index);
                (
                    World {
                        source: self.noted((source, step)),
                        rest: (landing->Some_0).rest,
                        ..self
                    },
                    end,
                )
            },
            _ => (World { source, ..self }, end),
        }
    }
}

/// Asking for a packet gives the next one that is to be delivered, and nothing
/// only where all were delivered, across segment boundaries and whether or not a
/// successor was prepared. What the source advertises stays the same.
pub proof fn law_delivery_is_continuous<P>(world: World<P>)
    requires
        world.wf(),
    ensures
        world.pull().0.wf(),
        world.pull().0.source.streams == world.source.streams,
        match world.pull().1 {
            Some(packet) => {
                &&& world.remaining().len() > 0
                &&& packet == world.remaining()[0]
                &&& world.pull().0.remaining() == world.remaining().skip(1)
            },
            None => world.remaining().len() == 0 && world.pull().0.remaining().len() == 0,
        },
    decreases world.source.segment_count - world.source.current_segment,
{
    let tail = packets_from(world.segments, world.source.current_segment + 1);
    if world.source.pending.len() > 0 {
        assert(world.pull().0.remaining() =~= world.remaining().skip(1));
    } else if world.rest.len() > 0 {
        assert(world.pull().0.remaining() =~= world.remaining().skip(1));
    } else {
        assert(world.remaining() =~= tail);
        if world.source.current_segment + 1 < world.source.segment_count {
            let index = (world.source.current_segment + 1) as usize;
            let ended = world.source.stepped(Event::Ended).0;
            let next = world.enter(ended, index);
            assert(world.pull() == next.pull());
            assert(next.remaining() =~= tail) by {
                let packets = world.segments[index as int];
                if packets.len() > 0 {
                    assert(seq![packets[0]] + packets.skip(1) =~= packets);
                } else {
                    assert(packets =~= seq![]);
                }
            }
            law_delivery_is_continuous(next);
        }
    }
}

/// Asking on delivers all that remains, one packet after the other and none of
/// them lost, repeated, reordered or changed, and then nothing any more. What the
/// source advertises stays the same throughout.
pub proof fn law_asking_on_delivers_all<P>(world: World<P>, n: nat)
    requires
        world.wf(),
    ensures
        world.answer(n) == (if n < world.remaining().len() {
            Some(world.remaining()[n as int])
        } else {
            None
        }),
        world.after(n).wf(),
        world.after(n).source.streams == world.source.streams,
        world.after(n).remaining() == (if n <= world.remaining().len() {
            world.remaining().skip(n as int)
        } else {
            seq![]
        }),
    decreases n,
{
    if n == 0 {
        assert(world.remaining().skip(0) =~= world.remaining());
    } else {
        let m = (n - 1) as nat;
        law_asking_on_delivers_all(world, m);
        law_delivery_is_continuous(world.after(m));
        if n <= world.remaining().len() {
            assert(world.remaining().skip(m as int).skip(1) =~= world.remaining().skip(n as int));
        } else {
            assert(world.after(m).remaining().len() == 0);
            assert(world.after(n).remaining() =~= seq![]);
        }
    }
    law_delivery_is_continuous(world.after(n));
}

/// A source that was just opened, its first segment primed, delivers the packets
/// of all segments in order and ends only behind the last: what was read for
/// priming is delivered again, unchanged.
pub proof fn law_opened_source_delivers_every_segment<P>(
    world: World<P>,
    stream_count: nat,
    yields: Seq<Yield<P>>,
    n: nat,
)
    requires
        world.wf(),
        world.segments[0] == crate::source::packets_of(yields),
        world.source.current_segment == 0,
        world.source.pending == crate::source::primed(
            PrimerModel { stream_count, seen: Set::empty(), packets: seq![] },
            yields,
        ).packets,
        world.rest == world.segments[0].skip(world.source.pending.len() as int),
    ensures
        ({
            let all = packets_from(world.segments, 0);
            &&& world.remaining() == all
            &&& world.answer(n) == (if n < all.len() {
                Some(all[n as int])
            } else {
                None
            })
            &&& world.after(n).source.streams == world.source.streams
        }),
{
    let fresh = PrimerModel::<P> { stream_count, seen: Set::empty(), packets: seq![] };
    crate::source::law_priming_reads_a_prefix(fresh, yields);
    let first = world.segments[0];
    let read = world.source.pending.len() as int;
    assert(world.source.pending =~= first.take(read));
    assert(first.take(read) + first.skip(read) =~= first);
    assert(world.remaining() =~= first + packets_from(world.segments, 1));
    law_asking_on_delivers_all(world, n);
}

/// A seek that is refused or fails changes nothing: asking on gives what it would
/// have given without the seek.
pub proof fn law_failed_seek_goes_unnoticed<P>(
    world: World<P>,
    request: SeekRequest,
    first: Option<Landing<P>>,
    second: Option<Landing<P>>,
    n: nat,
)
    requires
        world.wf(),
        world.seek(request, first, second).1 !is Landed,
    ensures
        world.seek(request, first, second).0 == world,
        world.seek(request, first, second).0.answer(n) == world.answer(n),
{
    crate::source::law_failed_seeks_change_nothing(
        world.source,
        request,
        attempt_of(first),
        attempt_of(second),
    );
}

/// A seek that landed at or before its target, or in the first segment, goes on
/// from there: asking on gives what the segment that its media time falls into
/// delivers from the landing on, and then the segments behind that one. One that
/// landed behind its target goes on likewise from where it landed in the segment
/// before, if it did. What was queued before the seek is dropped.
pub proof fn law_seek_goes_on_from_its_landing<P>(
    world: World<P>,
    request: SeekRequest,
    first: Landing<P>,
    second: Option<Landing<P>>,
    n: nat,
)
    requires
        world.wf(),
        world.source.planned(request) is Ok,
        first.landed <= request.pts || (world.source.planned(request)->Ok_0).index == 0 || second
            is Some,
    ensures
        ({
            let index = (world.source.planned(request)->Ok_0).index;
            let stays = first.landed <= request.pts || index == 0;
            let there = if stays {
                index
            } else {
                (index - 1) as usize
            };
            let landing = if stays {
                first
            } else {
                second->Some_0
            };
            let (after, end) = world.seek(request, Some(first), second);
            let remaining = landing.rest + packets_from(world.segments, there + 1);
            &&& end == Sought::Landed { index: there, landed: landing.landed }
            &&& after.wf()
            &&& after.source.current_segment == there
            &&& after.source.pending.len() == 0
            &&& after.source.streams == world.source.streams
            &&& after.remaining() == remaining
            &&& after.answer(n) == (if n < remaining.len() {
                Some(remaining[n as int])
            } else {
                None
            })
        }),
{
    crate::source::law_seek_settles(world.source, request, first.landed, attempt_of(second));
    let (after, end) = world.seek(request, Some(first), second);
    assert(after.remaining() =~= after.rest + packets_from(
        world.segments,
        after.source.current_segment + 1,
    ));
    law_asking_on_delivers_all(after, n);
}

} // verus!
