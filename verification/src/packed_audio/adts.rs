//! ADTS frames: the fixed configuration of a stream and the frame at a position.

use vstd::prelude::*;
use vstd::slice::{slice_subrange, slice_to_vec};
use crate::bytes::ByteReader;
use crate::fault::{AdtsFault, Fault};

verus! {

/// Header bytes where no checksum follows.
pub const HEADER_BYTES: usize = 7;

/// Header bytes where a checksum follows.
pub const HEADER_BYTES_WITH_CRC: usize = 9;

/// The fields of an ADTS header that stay fixed over a stream.
#[derive(Clone, Copy, Debug, PartialEq, Eq, Structural)]
pub struct AdtsConfig {
    pub mpeg2: bool,
    pub profile: u8,
    pub sample_rate: u32,
    pub channels: u8,
}

/// What an ADTS header says of its frame.
#[derive(Clone, Copy, Debug, PartialEq, Eq, Structural)]
pub struct AdtsHeader {
    pub config: AdtsConfig,
    /// Bytes of the whole frame, header and checksum included.
    pub frame_length: u16,
    /// Raw data blocks in the frame, of 1024 samples each.
    pub blocks: u8,
}

/// The sample rates in Hz, by sampling frequency index.
pub open spec fn sample_rates() -> Seq<u32> {
    seq![
        96000u32, 88200, 64000, 48000, 44100, 32000, 24000, 22050, 16000, 12000, 11025, 8000, 7350,
    ]
}

/// The sampling frequency index: four bits of the third byte.
pub open spec fn rate_index(h: Seq<u8>) -> int {
    (h[2] as int / 4) % 16
}

/// The frame length: the thirteen bits that span bytes four to six.
pub open spec fn length_field(h: Seq<u8>) -> int {
    (h[3] as int % 4) * 2048 + h[4] * 8 + h[5] as int / 32
}

/// The header that the bytes spell, fields most significant bit first: 12 bits
/// of sync, the MPEG version, 2 bits of layer, the absence of a checksum, 2 bits
/// of profile, 4 of rate index, 1 private, 3 of channels, 4 unused, 13 of frame
/// length, 11 of buffer fullness, and 2 that count the data blocks less one.
pub open spec fn header_of(h: Seq<u8>) -> Result<AdtsHeader, AdtsFault> {
    let header_bytes: int = if h[1] % 2 == 1 {
        HEADER_BYTES as int
    } else {
        HEADER_BYTES_WITH_CRC as int
    };
    if h.len() < HEADER_BYTES {
        Err(AdtsFault::UnexpectedEnd)
    } else if h[0] != 0xff || h[1] / 16 != 0x0f {
        Err(AdtsFault::SyncNotFound)
    } else if (h[1] / 2) % 4 != 0 {
        Err(AdtsFault::LayerNonZero)
    } else if rate_index(h) >= 13 {
        Err(AdtsFault::ReservedSampleRate)
    } else if length_field(h) < header_bytes {
        Err(AdtsFault::FrameLengthTooSmall)
    } else if h.len() < header_bytes {
        Err(AdtsFault::UnexpectedEnd)
    } else {
        Ok(
            AdtsHeader {
                config: AdtsConfig {
                    mpeg2: (h[1] / 8) % 2 == 1,
                    profile: h[2] / 64,
                    sample_rate: sample_rates()[rate_index(h)],
                    channels: ((h[2] % 2) * 4 + h[3] / 64) as u8,
                },
                frame_length: length_field(h) as u16,
                blocks: (h[6] % 4 + 1) as u8,
            },
        )
    }
}

/// Calls `oxideav_aac::adts::AdtsHeader::parse`, and `sample_rate` on the header
/// that it returns. Claimed: the header, or the reason against it, is the one
/// that the bytes spell.
#[verifier::external_body]
fn parse_header(data: &[u8]) -> (r: Result<AdtsHeader, AdtsFault>)
    ensures
        r == header_of(data@),
{
    match oxideav_aac::adts::AdtsHeader::parse(data) {
        Ok((h, _)) => Ok(AdtsHeader {
            config: AdtsConfig { mpeg2: h.mpeg_version_mpeg2, profile: h.profile, sample_rate: h.sample_rate(), channels: h.channel_configuration },
            frame_length: h.aac_frame_length,
            blocks: h.number_of_raw_data_blocks_in_frame,
        }),
        Err(oxideav_aac::Error::UnexpectedEnd) => Err(AdtsFault::UnexpectedEnd),
        Err(oxideav_aac::Error::AdtsSyncNotFound) => Err(AdtsFault::SyncNotFound),
        Err(oxideav_aac::Error::AdtsLayerNonZero) => Err(AdtsFault::LayerNonZero),
        Err(oxideav_aac::Error::AdtsReservedSampleRateIndex) => Err(AdtsFault::ReservedSampleRate),
        Err(oxideav_aac::Error::AdtsFrameLengthTooSmall) => Err(AdtsFault::FrameLengthTooSmall),
        Err(_) => Err(AdtsFault::Other),
    }
}

/// A complete ADTS frame.
#[derive(Debug)]
pub struct AdtsFrame {
    pub config: AdtsConfig,
    /// Samples per channel that the frame decodes to.
    pub samples: u64,
    /// The frame as it stands in the segment, header and checksum included.
    pub bytes: Vec<u8>,
}

/// The outcome of reading one frame.
pub struct FrameRead {
    /// Where reading stopped.
    pub end: int,
    /// The configuration and the sample count; the bytes are those read.
    pub out: Result<(AdtsConfig, u64), Fault>,
}

/// Reads the frame at `pos`, of which at least three bytes are there.
#[verifier::opaque]
pub open spec fn frame_at(s: Seq<u8>, pos: int) -> FrameRead {
    let n: int = if s[pos + 1] & 1u8 == 0 { HEADER_BYTES_WITH_CRC as int } else { HEADER_BYTES as int };
    if s[pos] != 0xff || s[pos + 1] & 0xf6u8 != 0xf0 {
        FrameRead { end: pos + 3, out: Err(Fault::NotAdts) }
    } else if s.len() < pos + n {
        FrameRead { end: s.len() as int, out: Err(Fault::Truncated) }
    } else {
        match header_of(s.subrange(pos, pos + n)) {
            Err(f) => FrameRead { end: pos + n, out: Err(Fault::AdtsHeader(f)) },
            Ok(h) => if h.frame_length <= n {
                FrameRead { end: pos + n, out: Err(Fault::AdtsFrameLength) }
            } else if s.len() < pos + h.frame_length {
                FrameRead { end: s.len() as int, out: Err(Fault::Truncated) }
            } else {
                FrameRead {
                    end: pos + h.frame_length,
                    out: Ok((h.config, (1024 * h.blocks) as u64)),
                }
            },
        }
    }
}

/// Reading a frame stops within the segment. A frame that was read is longer
/// than its header, holds one to four data blocks and has one of the rates.
pub proof fn lemma_frame_bounds(s: Seq<u8>, pos: int)
    requires
        0 <= pos,
        pos + 3 <= s.len(),
    ensures
        pos + 3 <= frame_at(s, pos).end <= s.len(),
        frame_at(s, pos).out matches Ok(unit) ==> {
            &&& pos + HEADER_BYTES < frame_at(s, pos).end
            &&& 1024 <= unit.1 <= 4096
            &&& sample_rates().contains(unit.0.sample_rate)
            &&& 7350 <= unit.0.sample_rate <= 96000
        },
{
    reveal(frame_at);
}

/// Reads one frame, whose first three bytes `p` have been read already. The
/// frame is kept as it stands, for the decoder.
pub fn read_frame(input: &mut ByteReader, p: &Vec<u8>) -> (r: Result<AdtsFrame, Fault>)
    requires
        old(input).wf(),
        p@.len() == 3,
        old(input).pos >= 3,
        p@ == old(input).bytes@.subrange(old(input).pos - 3, old(input).pos as int),
    ensures
        final(input).wf(),
        final(input).bytes == old(input).bytes,
        ({
            let start = old(input).pos - 3;
            let read = frame_at(old(input).bytes@, start);
            &&& final(input).pos == read.end
            &&& match read.out {
                Ok((config, samples)) => {
                    &&& r matches Ok(frame)
                    &&& frame.config == config
                    &&& frame.samples == samples
                    &&& frame.bytes@ == old(input).bytes@.subrange(start, read.end)
                },
                Err(f) => r == Err::<AdtsFrame, Fault>(f),
            }
        }),
{
    proof {
        reveal(frame_at);
    }
    if p[0] != 0xff || p[1] & 0xf6 != 0xf0 {
        return Err(Fault::NotAdts);
    }
    let header_len: usize = if p[1] & 1 == 0 {
        HEADER_BYTES_WITH_CRC
    } else {
        HEADER_BYTES
    };
    let start_at: usize = input.skip_exact(header_len - 3)? - 3;
    let header = match parse_header(
        slice_subrange(input.bytes.as_slice(), start_at, input.pos),
    ) {
        Ok(h) => h,
        Err(f) => {
            return Err(Fault::AdtsHeader(f));
        },
    };
    let length: usize = header.frame_length as usize;
    if length <= header_len {
        return Err(Fault::AdtsFrameLength);
    }
    input.skip_exact(length - header_len)?;
    let bytes = slice_to_vec(
        slice_subrange(input.bytes.as_slice(), start_at, input.pos),
    );
    assert(header.blocks <= 4);
    Ok(AdtsFrame { config: header.config, samples: 1024 * header.blocks as u64, bytes })
}

} // verus!
