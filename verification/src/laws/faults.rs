//! Faults by their class, and errors by what they say.

use vstd::prelude::*;
use crate::fault::{AdtsFault, Class, Error, ErrorModel, Fault, Role};

verus! {

/// Input that is over, and input that could not be read, are classes of their
/// own.
pub proof fn law_ends_and_failed_reads()
    ensures
        Fault::Eof.classed() == Class::Eof,
        Fault::Truncated.classed() == Class::Io,
        Fault::SeekOutOfRange.classed() == Class::Io,
{
}

/// What the scope leaves out is unsupported: other schemes, nested masters, live
/// and I-frame playlists, discontinuities, encryption, unknown formats, other
/// versions of ID3, tags beyond the bound, encoded PRIV frames, other codecs, and
/// changes of the audio configuration.
pub proof fn law_left_out_features(role: Role)
    ensures
        Fault::UnsupportedScheme(role).classed() == Class::Unsupported,
        Fault::NestedMaster.classed() == Class::Unsupported,
        Fault::LivePlaylist.classed() == Class::Unsupported,
        Fault::IFramesOnly.classed() == Class::Unsupported,
        Fault::Discontinuity.classed() == Class::Unsupported,
        Fault::Encrypted.classed() == Class::Unsupported,
        Fault::UnknownFormat.classed() == Class::Unsupported,
        Fault::Id3Version.classed() == Class::Unsupported,
        Fault::Id3TooLarge.classed() == Class::Unsupported,
        Fault::PrivEncoding.classed() == Class::Unsupported,
        Fault::NotAdts.classed() == Class::Unsupported,
        Fault::ConfigChangedBetweenSegments.classed() == Class::Unsupported,
        Fault::ConfigChangedWithinSegment.classed() == Class::Unsupported,
{
}

/// All else breaks a rule of its format.
pub proof fn law_broken_rules(adts: AdtsFault, role: Role)
    ensures
        Fault::MalformedId3.classed() == Class::Invalid,
        Fault::ConflictingTagTimestamps.classed() == Class::Invalid,
        Fault::AdtsHeader(adts).classed() == Class::Invalid,
        Fault::AdtsFrameLength.classed() == Class::Invalid,
        Fault::TimestampOverflow.classed() == Class::Invalid,
        Fault::NoAudio.classed() == Class::Invalid,
        Fault::ConflictingSegmentTimestamps.classed() == Class::Invalid,
        Fault::MissingTimestamp.classed() == Class::Invalid,
        Fault::SampleCountOverflow.classed() == Class::Invalid,
        Fault::NoSuchAudioStream.classed() == Class::Invalid,
        Fault::NotHlsUri.classed() == Class::Invalid,
        Fault::InvalidUrl(role).classed() == Class::Invalid,
        Fault::UnreadablePlaylist.classed() == Class::Invalid,
        Fault::NoPlayableVariants.classed() == Class::Invalid,
        Fault::UnreadAudioRendition.classed() == Class::Invalid,
        Fault::NoSegments.classed() == Class::Invalid,
        Fault::InvalidDuration.classed() == Class::Invalid,
        Fault::DanglingRange.classed() == Class::Invalid,
        Fault::RangeOverflow.classed() == Class::Invalid,
        Fault::MapTooLarge.classed() == Class::Invalid,
        Fault::UnmappedMp4.classed() == Class::Invalid,
        Fault::MappedPackedAudio.classed() == Class::Invalid,
        Fault::StreamCountChanged.classed() == Class::Invalid,
        Fault::StreamLayoutChanged.classed() == Class::Invalid,
        Fault::NoTimestamps.classed() == Class::Invalid,
        Fault::NoSuchStream.classed() == Class::Invalid,
        Fault::SeekTargetNotFinite.classed() == Class::Invalid,
{
}

/// Errors say what their fields say, and naming the segment changes nothing else.
pub proof fn law_errors_say_their_fields(
    e: Error,
    m: ErrorModel,
    i: usize,
    f: Fault,
    subject: Seq<char>,
    reason: Seq<char>,
)
    ensures
        e@.fault == e.fault,
        e@.segment == e.segment,
        e@.subject == e.subject@,
        e@.reason == e.reason@,
        m.at(i).segment == Some(i),
        m.at(i).fault == m.fault,
        m.at(i).subject == m.subject,
        m.at(i).reason == m.reason,
        ErrorModel::bare(f).fault == f,
        ErrorModel::bare(f).segment is None,
        ErrorModel::bare(f).subject.len() == 0,
        ErrorModel::bare(f).reason.len() == 0,
        ErrorModel::about(f, subject, reason).fault == f,
        ErrorModel::about(f, subject, reason).segment is None,
        ErrorModel::about(f, subject, reason).subject == subject,
        ErrorModel::about(f, subject, reason).reason == reason,
{
}

} // verus!
