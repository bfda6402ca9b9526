//! ADTS frames, told by the bits of their headers.

use vstd::prelude::*;
use crate::fault::{AdtsFault, Fault};
use crate::packed_audio::adts::AdtsConfig;

verus! {

/// The sampling frequency in Hz that a four-bit index stands for.
pub open spec fn hertz(index: int) -> int {
    if index == 0 {
        96000
    } else if index == 1 {
        88200
    } else if index == 2 {
        64000
    } else if index == 3 {
        48000
    } else if index == 4 {
        44100
    } else if index == 5 {
        32000
    } else if index == 6 {
        24000
    } else if index == 7 {
        22050
    } else if index == 8 {
        16000
    } else if index == 9 {
        12000
    } else if index == 10 {
        11025
    } else if index == 11 {
        8000
    } else {
        7350
    }
}

/// Whether a header starts with twelve set bits, and two more bits of layer that
/// are zero.
pub open spec fn marked(s: Seq<u8>, pos: int) -> bool {
    s[pos] == 255 && s[pos + 1] / 16 == 15 && (s[pos + 1] / 2) % 4 == 0
}

/// The bytes of a header: seven, and two more where a checksum follows.
pub open spec fn header_size(s: Seq<u8>, pos: int) -> int {
    if s[pos + 1] % 2 == 0 {
        9
    } else {
        7
    }
}

/// The thirteen bits that count the bytes of a frame.
pub open spec fn frame_size(s: Seq<u8>, pos: int) -> int {
    (s[pos + 3] as int % 4) * 2048 + s[pos + 4] * 8 + s[pos + 5] as int / 32
}

/// The four bits that name the sampling frequency.
pub open spec fn frequency(s: Seq<u8>, pos: int) -> int {
    (s[pos + 2] as int / 4) % 16
}

/// The samples of a frame: 1024 for each of its data blocks, of which the last two
/// bits of the seventh byte count one less.
pub open spec fn sample_count(s: Seq<u8>, pos: int) -> int {
    1024 * (s[pos + 6] as int % 4 + 1)
}

/// Whether the frame at a position is complete and well formed.
pub open spec fn complete(s: Seq<u8>, pos: int) -> bool {
    &&& 0 <= pos
    &&& pos + 3 <= s.len()
    &&& marked(s, pos)
    &&& pos + header_size(s, pos) <= s.len()
    &&& frequency(s, pos) < 13
    &&& header_size(s, pos) < frame_size(s, pos)
    &&& pos + frame_size(s, pos) <= s.len()
}

/// Masks and shares of a byte.
proof fn lemma_bits(b: u8)
    ensures
        b & 0xf6u8 == 0xf0 <==> b / 16 == 15 && (b / 2) % 4 == 0,
        b & 1u8 == 0 <==> b % 2 == 0,
{
    assert(b & 0xf6u8 == 0xf0 <==> b / 16 == 15 && (b / 2) % 4 == 0) by (bit_vector);
    assert(b & 1u8 == 0 <==> b % 2 == 0) by (bit_vector);
}

/// The bytes of a header that stand in a segment.
proof fn lemma_header(s: Seq<u8>, pos: int)
    requires
        0 <= pos,
        pos + 3 <= s.len(),
        marked(s, pos),
        pos + header_size(s, pos) <= s.len(),
    ensures
        ({
            let h = s.subrange(pos, pos + header_size(s, pos));
            &&& h[0] == s[pos] && h[1] == s[pos + 1] && h[2] == s[pos + 2] && h[3] == s[pos + 3]
            &&& h[4] == s[pos + 4] && h[5] == s[pos + 5] && h[6] == s[pos + 6]
            &&& crate::packed_audio::adts::rate_index(h) == frequency(s, pos)
            &&& crate::packed_audio::adts::length_field(h) == frame_size(s, pos)
        }),
{
}

/// What does not start with the sync bits and a zero layer is no ADTS.
pub proof fn law_unmarked_bytes_are_no_frames(s: Seq<u8>, pos: int)
    requires
        0 <= pos,
        pos + 3 <= s.len(),
        !marked(s, pos),
    ensures
        crate::packed_audio::adts::frame_at(s, pos).out == Err::<(AdtsConfig, u64), Fault>(
            Fault::NotAdts,
        ),
        crate::packed_audio::adts::frame_at(s, pos).end == pos + 3,
{
    reveal(crate::packed_audio::adts::frame_at);
    lemma_bits(s[pos + 1]);
}

/// A frame is refused for a header that is cut off, for a reserved frequency, for
/// a length that leaves no room for the header or for data, and for data that are
/// cut off, in this order.
pub proof fn law_refused_frames(s: Seq<u8>, pos: int)
    requires
        0 <= pos,
        pos + 3 <= s.len(),
        marked(s, pos),
    ensures
        ({
            let read = crate::packed_audio::adts::frame_at(s, pos);
            let n = header_size(s, pos);
            let whole = pos + n <= s.len();
            let refused = |f: Fault| Err::<(AdtsConfig, u64), Fault>(f);
            &&& !whole ==> read.out == refused(Fault::Truncated) && read.end == s.len()
            &&& whole && frequency(s, pos) >= 13 ==> read.out == refused(
                Fault::AdtsHeader(AdtsFault::ReservedSampleRate),
            ) && read.end == pos + n
            &&& whole && frequency(s, pos) < 13 && frame_size(s, pos) < n ==> read.out == refused(
                Fault::AdtsHeader(AdtsFault::FrameLengthTooSmall),
            ) && read.end == pos + n
            &&& whole && frequency(s, pos) < 13 && frame_size(s, pos) == n ==> read.out == refused(
                Fault::AdtsFrameLength,
            ) && read.end == pos + n
            &&& whole && frequency(s, pos) < 13 && frame_size(s, pos) > n && pos + frame_size(
                s,
                pos,
            ) > s.len() ==> read.out == refused(Fault::Truncated) && read.end == s.len()
        }),
{
    reveal(crate::packed_audio::adts::frame_at);
    lemma_bits(s[pos + 1]);
    if pos + header_size(s, pos) <= s.len() {
        lemma_header(s, pos);
    }
}

/// Every other frame is read over its whole length. Its version is the fifth bit
/// of the second byte, its profile the first two bits of the third, its channel
/// configuration three bits over the third and the fourth.
pub proof fn law_accepted_frames(s: Seq<u8>, pos: int)
    requires
        complete(s, pos),
    ensures
        ({
            let read = crate::packed_audio::adts::frame_at(s, pos);
            let config = (read.out->Ok_0).0;
            &&& read.out is Ok
            &&& read.end == pos + frame_size(s, pos)
            &&& (read.out->Ok_0).1 == sample_count(s, pos)
            &&& config.sample_rate == hertz(frequency(s, pos))
            &&& config.profile == s[pos + 2] as int / 64
            &&& config.channels == (s[pos + 2] as int % 2) * 4 + s[pos + 3] as int / 64
            &&& config.mpeg2 <==> (s[pos + 1] / 8) % 2 == 1
        }),
{
    reveal(crate::packed_audio::adts::frame_at);
    lemma_bits(s[pos + 1]);
    lemma_header(s, pos);
}

/// Only complete frames are read, so the header of what was read gives its rate,
/// its samples and its length.
pub proof fn law_read_frames_are_complete(s: Seq<u8>, pos: int)
    requires
        0 <= pos,
        pos + 3 <= s.len(),
        crate::packed_audio::adts::frame_at(s, pos).out is Ok,
    ensures
        complete(s, pos),
{
    if !marked(s, pos) {
        law_unmarked_bytes_are_no_frames(s, pos);
    } else {
        law_refused_frames(s, pos);
    }
}

/// A configuration of one to six has as many channels, that of seven has eight,
/// and that of zero leaves them open.
pub proof fn law_channel_counts(config: AdtsConfig)
    ensures
        config.channels == 0 ==> crate::packed_audio::demuxer::channel_count(config) is None,
        1 <= config.channels <= 6 ==> crate::packed_audio::demuxer::channel_count(config) == Some(
            config.channels as u16,
        ),
        config.channels == 7 ==> crate::packed_audio::demuxer::channel_count(config) == Some(8u16),
{
}

} // verus!
