//! What can go wrong, and how it is classed for callers.

use vstd::prelude::*;

verus! {

/// Why an ADTS header was refused.
#[derive(Clone, Copy, Debug, PartialEq, Eq, Structural)]
pub enum AdtsFault {
    UnexpectedEnd,
    SyncNotFound,
    LayerNonZero,
    ReservedSampleRate,
    FrameLengthTooSmall,
    Other,
}

/// What a URL stands for.
#[derive(Clone, Copy, Debug, PartialEq, Eq, Structural)]
pub enum Role {
    Playlist,
    Variant,
    PreferredVariant,
    AudioRendition,
    Segment,
    InitializationMap,
}

/// One reason for which an operation did not produce a value.
#[derive(Clone, Copy, Debug, PartialEq, Eq, Structural)]
pub enum Fault {
    /// The input is over.
    Eof,
    /// The input ended inside a structure.
    Truncated,
    /// An ID3 tag of a packed audio segment is malformed.
    MalformedId3,
    /// An ID3 tag is neither version 2.3 nor version 2.4.
    Id3Version,
    /// The ID3 tags of one scan exceed one mebibyte.
    Id3TooLarge,
    /// A PRIV frame is compressed or encrypted.
    PrivEncoding,
    /// Two PRIV frames of one tag disagree on the transport timestamp.
    ConflictingTagTimestamps,
    /// The payload of a packed audio segment is not ADTS AAC.
    NotAdts,
    /// An ADTS header was refused.
    AdtsHeader(AdtsFault),
    /// An ADTS frame is not longer than its header.
    AdtsFrameLength,
    /// The ADTS configuration of a segment is not that of the first segment.
    ConfigChangedBetweenSegments,
    /// A timestamp does not fit 64 bits.
    TimestampOverflow,
    /// A packed audio segment holds no frame.
    NoAudio,
    /// Two tags of one segment disagree on the transport timestamp.
    ConflictingSegmentTimestamps,
    /// A packed audio segment holds no transport timestamp.
    MissingTimestamp,
    /// The ADTS configuration changed inside a segment.
    ConfigChangedWithinSegment,
    /// The samples of a segment do not fit 64 bits.
    SampleCountOverflow,
    /// A packed audio segment has one stream, whose index is zero.
    NoSuchAudioStream,
    /// The URI does not start with `hls+http://` or `hls+https://`.
    NotHlsUri,
    /// A URL or a URI reference cannot be parsed.
    InvalidUrl(Role),
    /// A URL's scheme is neither HTTP nor HTTPS.
    UnsupportedScheme(Role),
    /// A playlist cannot be parsed.
    UnreadablePlaylist,
    /// A master playlist has no variant that is not an I-frame playlist.
    NoPlayableVariants,
    /// An audio rendition of a master playlist cannot be read.
    UnreadAudioRendition,
    /// A variant of a master playlist is a master playlist.
    NestedMaster,
    /// A media playlist has no end.
    LivePlaylist,
    /// A media playlist lists I-frames only.
    IFramesOnly,
    /// A media playlist lists no segment.
    NoSegments,
    /// A segment begins a discontinuity.
    Discontinuity,
    /// A segment is encrypted.
    Encrypted,
    /// A segment's duration is not a positive number.
    InvalidDuration,
    /// A byte range without an offset does not follow a range of its resource.
    DanglingRange,
    /// The end of a byte range does not fit 64 bits.
    RangeOverflow,
    /// An initialization map exceeds eight mebibytes.
    MapTooLarge,
    /// A segment is of no known format.
    UnknownFormat,
    /// An fMP4 segment has no initialization map.
    UnmappedMp4,
    /// A packed audio segment has an initialization map.
    MappedPackedAudio,
    /// A seek leads before the start of a segment, or out of range.
    SeekOutOfRange,
    /// A segment's stream count is not that of the first segment.
    StreamCountChanged,
    /// A segment's streams are not those of the first segment.
    StreamLayoutChanged,
    /// The first segment holds no timestamp.
    NoTimestamps,
    /// There is no stream with the index that was asked for.
    NoSuchStream,
    /// The target of a seek is not a number.
    SeekTargetNotFinite,
}

/// How callers see a fault.
#[derive(Clone, Copy, Debug, PartialEq, Eq, Structural)]
pub enum Class {
    /// The input is over.
    Eof,
    /// The input could not be read to the end of a structure.
    Io,
    /// The input breaks the rules of its format.
    Invalid,
    /// The input uses a feature that is not provided.
    Unsupported,
}

impl Fault {
    /// Features that are not provided, as opposed to input that breaks rules.
    pub open spec fn unsupported(self) -> bool {
        match self {
            Fault::Id3Version
            | Fault::Id3TooLarge
            | Fault::PrivEncoding
            | Fault::NotAdts
            | Fault::ConfigChangedBetweenSegments
            | Fault::ConfigChangedWithinSegment
            | Fault::UnsupportedScheme(_)
            | Fault::NestedMaster
            | Fault::LivePlaylist
            | Fault::IFramesOnly
            | Fault::Discontinuity
            | Fault::Encrypted
            | Fault::UnknownFormat => true,
            _ => false,
        }
    }

    /// The class that a fault belongs to.
    pub open spec fn classed(self) -> Class {
        if self == Fault::Eof {
            Class::Eof
        } else if self == Fault::Truncated || self == Fault::SeekOutOfRange {
            Class::Io
        } else if self.unsupported() {
            Class::Unsupported
        } else {
            Class::Invalid
        }
    }

    /// The class of a fault.
    pub fn class(self) -> (r: Class)
        ensures
            r == (if self == Fault::Eof {
                Class::Eof
            } else if self == Fault::Truncated || self == Fault::SeekOutOfRange {
                Class::Io
            } else if self.unsupported() {
                Class::Unsupported
            } else {
                Class::Invalid
            }),
            r == self.classed(),
    {
        match self {
            Fault::Eof => Class::Eof,
            Fault::Truncated | Fault::SeekOutOfRange => Class::Io,
            Fault::Id3Version
            | Fault::Id3TooLarge
            | Fault::PrivEncoding
            | Fault::NotAdts
            | Fault::ConfigChangedBetweenSegments
            | Fault::ConfigChangedWithinSegment
            | Fault::UnsupportedScheme(_)
            | Fault::NestedMaster
            | Fault::LivePlaylist
            | Fault::IFramesOnly
            | Fault::Discontinuity
            | Fault::Encrypted
            | Fault::UnknownFormat => Class::Unsupported,
            _ => Class::Invalid,
        }
    }
}

/// A fault with what there is to say about it.
#[derive(Debug)]
pub struct Error {
    pub fault: Fault,
    /// The segment at fault.
    pub segment: Option<usize>,
    /// The text at fault: a URI, a scheme, a key method.
    pub subject: String,
    /// What was found wrong with it.
    pub reason: String,
}

/// What an error says.
#[verifier::ext_equal]
pub struct ErrorModel {
    pub fault: Fault,
    pub segment: Option<usize>,
    pub subject: Seq<char>,
    pub reason: Seq<char>,
}

impl View for Error {
    type V = ErrorModel;

    open spec fn view(&self) -> ErrorModel {
        ErrorModel {
            fault: self.fault,
            segment: self.segment,
            subject: self.subject@,
            reason: self.reason@,
        }
    }
}

impl ErrorModel {
    /// An error with nothing more to say.
    pub open spec fn bare(fault: Fault) -> ErrorModel {
        ErrorModel { fault, segment: None, subject: seq![], reason: seq![] }
    }

    /// The same error, said of a segment.
    pub open spec fn at(self, segment: usize) -> ErrorModel {
        ErrorModel { segment: Some(segment), ..self }
    }

    /// An error about a text, and why.
    pub open spec fn about(fault: Fault, subject: Seq<char>, reason: Seq<char>) -> ErrorModel {
        ErrorModel { fault, segment: None, subject, reason }
    }
}

impl Error {
    /// An error with nothing more to say.
    pub fn bare(fault: Fault) -> (r: Error)
        ensures
            r@ == ErrorModel::bare(fault),
    {
        Error { fault, segment: None, subject: String::new(), reason: String::new() }
    }

    /// An error about a text, and why.
    pub fn about(fault: Fault, subject: String, reason: String) -> (r: Error)
        ensures
            r@ == ErrorModel::about(fault, subject@, reason@),
    {
        Error { fault, segment: None, subject, reason }
    }

    /// The same error, said of a segment.
    pub fn at(self, segment: usize) -> (r: Error)
        ensures
            r@ == self@.at(segment),
    {
        Error { fault: self.fault, segment: Some(segment), subject: self.subject, reason: self.reason }
    }
}

} // verus!
