//! The part of ID3v2.3 and ID3v2.4 that packed audio needs: the tag framing and
//! the PRIV frame that carries the transport timestamp. Other frames are
//! skipped by their declared size.

use vstd::prelude::*;
use vstd::slice::{slice_subrange, slice_to_vec};
use crate::bytes::{be_number, is_ascii_text, same_bytes, ByteReader};
use crate::fault::Fault;

verus! {

/// The most ID3 bytes that one scan reads.
pub const MAX_METADATA_BYTES: usize = 1048576;

/// The transport clock counts 33 bits of 90 kHz ticks.
pub const WRAP: i64 = 8589934592;

/// Owner identifier of the PRIV frame that carries the transport timestamp.
pub open spec fn owner() -> Seq<u8> {
    crate::bytes::ascii("com.apple.streaming.transportStreamTimestamp"@)
}

/// The bytes `PRIV`, the identifier of a private frame.
pub open spec fn priv_id() -> Seq<u8> {
    seq![0x50u8, 0x52, 0x49, 0x56]
}

/// The bytes `3DI`, which open a footer.
pub open spec fn footer_mark() -> Seq<u8> {
    seq![0x33u8, 0x44, 0x49]
}

/// The number that four synchsafe bytes spell: seven bits each, the most
/// significant first. There is none where a top bit is set.
pub open spec fn synchsafe_value(b: Seq<u8>) -> Option<nat> {
    if b.len() == 4 && (forall|i: int| 0 <= i < 4 ==> b[i] < 128) {
        Some((b[0] * 2097152 + b[1] * 16384 + b[2] * 128 + b[3]) as nat)
    } else {
        None
    }
}

/// Undoes unsynchronisation: each zero byte right behind an `0xff` is dropped.
pub open spec fn deunsynced(s: Seq<u8>) -> Seq<u8>
    decreases s.len(),
{
    if s.len() == 0 {
        s
    } else if s[0] == 0xff && s.len() > 1 && s[1] == 0 {
        seq![s[0]] + deunsynced(s.skip(2))
    } else {
        seq![s[0]] + deunsynced(s.skip(1))
    }
}

/// The size of the tag body that a seven-byte header announces (the `ID3` mark
/// precedes it), or why the tag cannot be read.
pub open spec fn body_size(header: Seq<u8>) -> Result<nat, Fault> {
    if header[0] != 3 && header[0] != 4 {
        Err(Fault::Id3Version)
    } else if header[1] == 255 || header[2] & (if header[0] == 3 { 0x1fu8 } else { 0x0fu8 }) != 0 {
        Err(Fault::MalformedId3)
    } else {
        match synchsafe_value(header.subrange(3, 7)) {
            Some(n) => Ok(n),
            None => Err(Fault::MalformedId3),
        }
    }
}

/// Whether the header announces a ten-byte footer behind the body.
pub open spec fn has_footer(header: Seq<u8>) -> bool {
    header[0] == 4 && header[2] & 0x10u8 != 0
}

/// The frames of a tag body: version 2.3 unsynchronises the body as a whole, and
/// an extended header may precede the frames.
pub open spec fn frames_of(version: u8, flags: u8, body: Seq<u8>) -> Result<Seq<u8>, Fault> {
    let b = if version == 3 && flags & 0x80u8 != 0 {
        deunsynced(body)
    } else {
        body
    };
    if flags & 0x40u8 == 0 {
        Ok(b)
    } else if b.len() < 4 {
        Err(Fault::MalformedId3)
    } else {
        let extended: Option<nat> = if version == 3 {
            Some(crate::bytes::be_value(b.take(4)) + 4)
        } else {
            synchsafe_value(b.take(4))
        };
        match extended {
            Some(n) => if (if version == 3 { 10nat } else { 6nat }) <= n <= b.len() {
                Ok(b.skip(n as int))
            } else {
                Err(Fault::MalformedId3)
            },
            None => Err(Fault::MalformedId3),
        }
    }
}

/// What a PRIV frame holds once unsynchronisation, the grouping byte and the
/// data length indicator are taken off.
pub open spec fn priv_content(version: u8, flags: u8, format: u8, payload: Seq<u8>) -> Result<
    Seq<u8>,
    Fault,
> {
    if format & !(if version == 3 { 0x20u8 } else { 0x43u8 }) != 0 {
        Err(Fault::PrivEncoding)
    } else {
        let plain = if version == 4 && (format & 2u8 != 0 || flags & 0x80u8 != 0) {
            deunsynced(payload)
        } else {
            payload
        };
        let grouped = format & (if version == 3 { 0x20u8 } else { 0x40u8 }) != 0;
        if grouped && plain.len() == 0 {
            Err(Fault::MalformedId3)
        } else {
            let ungrouped = if grouped { plain.skip(1) } else { plain };
            if version == 4 && format & 1u8 != 0 {
                if ungrouped.len() >= 4 && synchsafe_value(ungrouped.take(4)) == Some(
                    (ungrouped.len() - 4) as nat,
                ) {
                    Ok(ungrouped.skip(4))
                } else {
                    Err(Fault::MalformedId3)
                }
            } else {
                Ok(ungrouped)
            }
        }
    }
}

/// The timestamp in the content of a PRIV frame: none where another owner wrote
/// the frame, else the eight bytes behind the owner's terminator, a 33-bit
/// number.
pub open spec fn content_timestamp(content: Seq<u8>) -> Result<Option<i64>, Fault> {
    match content.index_of_first(0u8) {
        None => Err(Fault::MalformedId3),
        Some(nul) => if content.take(nul) != owner() {
            Ok(None)
        } else {
            let value = content.skip(nul + 1);
            if value.len() == 8 && crate::bytes::be_value(value) < WRAP {
                Ok(Some(crate::bytes::be_value(value) as i64))
            } else {
                Err(Fault::MalformedId3)
            }
        },
    }
}

/// The timestamp that one frame contributes.
pub open spec fn frame_timestamp(version: u8, flags: u8, frame: Seq<u8>) -> Result<
    Option<i64>,
    Fault,
> {
    if frame.take(4) != priv_id() {
        Ok(None)
    } else {
        match priv_content(version, flags, frame[9], frame.skip(10)) {
            Err(f) => Err(f),
            Ok(content) => content_timestamp(content),
        }
    }
}

/// A character that a frame identifier is made of.
pub open spec fn id_byte(b: u8) -> bool {
    0x41 <= b <= 0x5a || 0x30 <= b <= 0x39
}

/// The length of the first frame, its ten-byte header included, where the frame
/// is well formed and complete.
pub open spec fn first_frame_len(version: u8, frames: Seq<u8>) -> Option<nat> {
    if frames.len() < 10 || (exists|i: int| 0 <= i < 4 && !id_byte(#[trigger] frames[i])) {
        None
    } else {
        let size: Option<nat> = if version == 3 {
            Some(crate::bytes::be_value(frames.subrange(4, 8)))
        } else {
            synchsafe_value(frames.subrange(4, 8))
        };
        match size {
            Some(n) => if n + 10 <= frames.len() {
                Some(n + 10)
            } else {
                None
            },
            None => None,
        }
    }
}

/// The timestamp of a run of frames, `seen` being the one found before them.
/// Zero padding may end the run.
pub open spec fn frames_timestamp(
    version: u8,
    flags: u8,
    frames: Seq<u8>,
    seen: Option<i64>,
) -> Result<Option<i64>, Fault>
    decreases frames.len(),
{
    if frames.len() == 0 {
        Ok(seen)
    } else if frames[0] == 0 {
        if forall|i: int| 0 <= i < frames.len() ==> frames[i] == 0 {
            Ok(seen)
        } else {
            Err(Fault::MalformedId3)
        }
    } else {
        match first_frame_len(version, frames) {
            None => Err(Fault::MalformedId3),
            Some(n) => match frame_timestamp(version, flags, frames.take(n as int)) {
                Err(f) => Err(f),
                Ok(None) => frames_timestamp(version, flags, frames.skip(n as int), seen),
                Ok(Some(t)) => if seen is Some && seen != Some(t) {
                    Err(Fault::ConflictingTagTimestamps)
                } else {
                    frames_timestamp(version, flags, frames.skip(n as int), Some(t))
                },
            },
        }
    }
}

/// The outcome of reading one tag.
pub struct TagRead {
    /// Where reading stopped.
    pub end: int,
    /// The ID3 bytes that the scan has used up.
    pub consumed: int,
    /// The transport timestamp, where the tag carries one.
    pub out: Result<Option<i64>, Fault>,
}

/// Reads the tag whose `ID3` mark ends at `pos`, `consumed` ID3 bytes being used
/// up before it.
#[verifier::opaque]
pub open spec fn tag_at(s: Seq<u8>, pos: int, consumed: int) -> TagRead {
    if s.len() < pos + 7 {
        TagRead { end: s.len() as int, consumed, out: Err(Fault::Truncated) }
    } else {
        let header = s.subrange(pos, pos + 7);
        match body_size(header) {
            Err(f) => TagRead { end: pos + 7, consumed, out: Err(f) },
            Ok(size) => {
                let tail: int = if has_footer(header) { 10 } else { 0 };
                let used = consumed + size + 10 + tail;
                if used > usize::MAX {
                    TagRead { end: pos + 7, consumed, out: Err(Fault::MalformedId3) }
                } else if used > MAX_METADATA_BYTES {
                    TagRead { end: pos + 7, consumed: used, out: Err(Fault::Id3TooLarge) }
                } else if s.len() < pos + 7 + size + tail {
                    TagRead { end: s.len() as int, consumed: used, out: Err(Fault::Truncated) }
                } else {
                    let end = pos + 7 + size + tail;
                    let body = s.subrange(pos + 7, pos + 7 + size);
                    if has_footer(header) && s.subrange(end - 10, end) != footer_mark() + header {
                        TagRead { end, consumed: used, out: Err(Fault::MalformedId3) }
                    } else {
                        TagRead {
                            end,
                            consumed: used,
                            out: match frames_of(header[0], header[2], body) {
                                Err(f) => Err(f),
                                Ok(frames) => frames_timestamp(header[0], header[2], frames, None),
                            },
                        }
                    }
                }
            },
        }
    }
}

/// Reading a tag stops at or behind its mark, within the segment, and behind the
/// header where the tag could be read.
pub proof fn lemma_tag_bounds(s: Seq<u8>, pos: int, consumed: int)
    requires
        0 <= pos <= s.len(),
    ensures
        pos <= tag_at(s, pos, consumed).end <= s.len(),
        tag_at(s, pos, consumed).out is Ok ==> pos + 7 <= tag_at(s, pos, consumed).end,
{
    reveal(tag_at);
}

fn is_owner(b: &[u8]) -> (r: bool)
    ensures
        r == (b@ == owner()),
{
    let text = "com.apple.streaming.transportStreamTimestamp";
    proof {
        reveal_strlit("com.apple.streaming.transportStreamTimestamp");
        assert(vstd::utf8::is_ascii_chars(text@));
    }
    is_ascii_text(b, text)
}

/// Decodes a synchsafe number of four bytes.
pub fn synchsafe(b: &[u8]) -> (r: Result<usize, Fault>)
    ensures
        match synchsafe_value(b@) {
            Some(n) => r == Ok::<usize, Fault>(n as usize) && n < 268435456,
            None => r == Err::<usize, Fault>(Fault::MalformedId3),
        },
{
    if b.len() != 4 || b[0] >= 128 || b[1] >= 128 || b[2] >= 128 || b[3] >= 128 {
        return Err(Fault::MalformedId3);
    }
    assert(forall|i: int| 0 <= i < 4 ==> b@[i] < 128);
    let n: usize = b[0] as usize * 2097152 + b[1] as usize * 16384 + b[2] as usize * 128
        + b[3] as usize;
    Ok(n)
}

/// Decodes a big-endian number of four bytes.
pub fn be_size(b: &[u8]) -> (r: Result<usize, Fault>)
    ensures
        if b@.len() == 4 {
            r == Ok::<usize, Fault>(crate::bytes::be_value(b@) as usize)
                && crate::bytes::be_value(b@) <= u32::MAX
        } else {
            r == Err::<usize, Fault>(Fault::MalformedId3)
        },
{
    if b.len() != 4 {
        return Err(Fault::MalformedId3);
    }
    proof {
        crate::bytes::lemma_be_value_bound(b@);
        vstd::arithmetic::power2::lemma2_to64();
    }
    let n: u64 = be_number(b);
    Ok(n as usize)
}

/// Undoes unsynchronisation: each zero byte right behind an `0xff` is dropped.
pub fn deunsync(bytes: &[u8]) -> (out: Vec<u8>)
    ensures
        out@ == deunsynced(bytes@),
{
    let mut out: Vec<u8> = Vec::with_capacity(bytes.len());
    let mut i: usize = 0;
    assert(bytes@.skip(0) =~= bytes@);
    while i < bytes.len()
        invariant
            i <= bytes@.len(),
            deunsynced(bytes@) == out@ + deunsynced(bytes@.skip(i as int)),
        decreases bytes@.len() - i,
    {
        let ghost rest = bytes@.skip(i as int);
        let ghost before = out@;
        out.push(bytes[i]);
        if bytes[i] == 0xff && i + 1 < bytes.len() && bytes[i + 1] == 0 {
            assert(rest.skip(2) =~= bytes@.skip(i + 2));
            i += 1;
        } else {
            assert(rest.skip(1) =~= bytes@.skip(i + 1));
        }
        i += 1;
        assert(out@ =~= before + seq![rest[0]]);
        assert(out@ + deunsynced(bytes@.skip(i as int)) =~= before + (seq![rest[0]] + deunsynced(
            bytes@.skip(i as int),
        )));
    }
    assert(out@ =~= out@ + deunsynced(bytes@.skip(i as int)));
    out
}

/// Takes unsynchronisation, the grouping byte and the data length indicator off
/// the payload of a PRIV frame.
fn unwrap_priv(version: u8, flags: u8, format: u8, payload: &[u8]) -> (r: Result<Vec<u8>, Fault>)
    ensures
        match priv_content(version, flags, format, payload@) {
            Ok(content) => r matches Ok(v) && v@ == content,
            Err(f) => r == Err::<Vec<u8>, Fault>(f),
        },
{
    let allowed: u8 = if version == 3 { 0x20 } else { 0x43 };
    if format & !allowed != 0 {
        return Err(Fault::PrivEncoding);
    }
    let plain: Vec<u8> = if version == 4 && (format & 2 != 0 || flags & 0x80 != 0) {
        deunsync(payload)
    } else {
        slice_to_vec(payload)
    };
    let group_bit: u8 = if version == 3 { 0x20 } else { 0x40 };
    let mut from: usize = 0;
    if format & group_bit != 0 {
        if plain.len() == 0 {
            return Err(Fault::MalformedId3);
        }
        from = 1;
    }
    let ghost ungrouped = plain@.skip(from as int);
    assert(plain@.skip(0) =~= plain@);
    if version == 4 && format & 1 != 0 {
        if plain.len() - from < 4 {
            return Err(Fault::MalformedId3);
        }
        let declared = slice_subrange(plain.as_slice(), from, from + 4);
        assert(declared@ =~= ungrouped.take(4));
        match synchsafe(declared) {
            Ok(size) => {
                if size != plain.len() - from - 4 {
                    return Err(Fault::MalformedId3);
                }
            },
            Err(f) => {
                return Err(f);
            },
        }
        assert(plain@.skip(from + 4) =~= ungrouped.skip(4));
        from += 4;
    }
    let out = slice_to_vec(slice_subrange(plain.as_slice(), from, plain.len()));
    assert(out@ =~= plain@.skip(from as int));
    Ok(out)
}

/// Reads the transport timestamp out of the content of a PRIV frame.
fn timestamp_in(content: &[u8]) -> (r: Result<Option<i64>, Fault>)
    ensures
        r == content_timestamp(content@),
{
    proof {
        content@.index_of_first_ensures(0u8);
    }
    let mut nul: usize = 0;
    while nul < content.len() && content[nul] != 0
        invariant
            nul <= content@.len(),
            forall|j: int| 0 <= j < nul ==> content@[j] != 0,
        decreases content@.len() - nul,
    {
        nul += 1;
    }
    if nul == content.len() {
        assert(!content@.contains(0u8));
        return Err(Fault::MalformedId3);
    }
    assert(content@[nul as int] == 0);
    assert(content@.contains(0u8));
    let ghost found = content@.index_of_first(0u8)->0;
    assert(found == nul) by {
        assert(content@[found] == 0);
    }
    let name = slice_subrange(content, 0, nul);
    assert(name@ =~= content@.take(nul as int));
    if !is_owner(name) {
        return Ok(None);
    }
    let value = slice_subrange(content, nul + 1, content.len());
    assert(value@ =~= content@.skip(nul + 1));
    if value.len() != 8 {
        return Err(Fault::MalformedId3);
    }
    let pts: u64 = be_number(value);
    if pts >= WRAP as u64 {
        return Err(Fault::MalformedId3);
    }
    Ok(Some(pts as i64))
}

/// Whether a byte can stand in a frame identifier.
fn is_id_byte(b: u8) -> (r: bool)
    ensures
        r == id_byte(b),
{
    (b >= 0x41 && b <= 0x5a) || (b >= 0x30 && b <= 0x39)
}

/// The length of the first frame, its header included.
fn frame_len(version: u8, frames: &[u8]) -> (r: Result<usize, Fault>)
    ensures
        match first_frame_len(version, frames@) {
            Some(n) => r == Ok::<usize, Fault>(n as usize) && 10 <= n <= frames@.len(),
            None => r == Err::<usize, Fault>(Fault::MalformedId3),
        },
{
    if frames.len() < 10 {
        return Err(Fault::MalformedId3);
    }
    if !is_id_byte(frames[0]) || !is_id_byte(frames[1]) || !is_id_byte(frames[2]) || !is_id_byte(
        frames[3],
    ) {
        assert(exists|i: int| 0 <= i < 4 && !id_byte(#[trigger] frames@[i]));
        return Err(Fault::MalformedId3);
    }
    let size = slice_subrange(frames, 4, 8);
    let length: usize = if version == 3 {
        be_size(size)?
    } else {
        synchsafe(size)?
    };
    if length > frames.len() - 10 {
        return Err(Fault::MalformedId3);
    }
    Ok(length + 10)
}

/// Whether every byte is zero.
fn all_zero(b: &[u8]) -> (r: bool)
    ensures
        r == (forall|i: int| 0 <= i < b@.len() ==> b@[i] == 0),
{
    let mut i: usize = 0;
    while i < b.len()
        invariant
            i <= b@.len(),
            forall|j: int| 0 <= j < i ==> b@[j] == 0,
        decreases b@.len() - i,
    {
        if b[i] != 0 {
            return false;
        }
        i += 1;
    }
    true
}

/// Looks through the frames of a tag for the transport timestamp.
fn scan_frames(version: u8, flags: u8, frames: &[u8]) -> (r: Result<Option<i64>, Fault>)
    ensures
        r == frames_timestamp(version, flags, frames@, None),
{
    let mut at: usize = 0;
    let mut seen: Option<i64> = None;
    assert(frames@.skip(0) =~= frames@);
    while at < frames.len()
        invariant
            at <= frames@.len(),
            frames_timestamp(version, flags, frames@, None) == frames_timestamp(
                version,
                flags,
                frames@.skip(at as int),
                seen,
            ),
        decreases frames@.len() - at,
    {
        let rest = slice_subrange(frames, at, frames.len());
        assert(rest@ =~= frames@.skip(at as int));
        if rest[0] == 0 {
            if all_zero(rest) {
                return Ok(seen);
            }
            return Err(Fault::MalformedId3);
        }
        let n: usize = match frame_len(version, rest) {
            Ok(n) => n,
            Err(f) => {
                return Err(f);
            },
        };
        let ghost frame = rest@.take(n as int);
        assert(rest@.skip(n as int) =~= frames@.skip(at + n));
        assert(frame.take(4) =~= rest@.take(4));
        assert(frame.skip(10) =~= rest@.subrange(10, n as int));
        if rest[0] == 0x50 && rest[1] == 0x52 && rest[2] == 0x49 && rest[3] == 0x56 {
            assert(frame.take(4) =~= priv_id());
            let payload = slice_subrange(rest, 10, n);
            let content = match unwrap_priv(version, flags, rest[9], payload) {
                Ok(content) => content,
                Err(f) => {
                    return Err(f);
                },
            };
            match timestamp_in(content.as_slice()) {
                Err(f) => {
                    return Err(f);
                },
                Ok(None) => {},
                Ok(Some(pts)) => {
                    if let Some(previous) = seen {
                        if previous != pts {
                            return Err(Fault::ConflictingTagTimestamps);
                        }
                    }
                    seen = Some(pts);
                },
            }
        } else {
            assert(frame.take(4) != priv_id()) by {
                if frame.take(4) == priv_id() {
                    assert(frame.take(4)[0] == 0x50 && frame.take(4)[1] == 0x52);
                    assert(frame.take(4)[2] == 0x49 && frame.take(4)[3] == 0x56);
                }
            }
        }
        at += n;
    }
    Ok(seen)
}

/// Finds the frames of a tag body and the transport timestamp among them.
fn body_timestamp(version: u8, flags: u8, body: Vec<u8>) -> (r: Result<Option<i64>, Fault>)
    ensures
        r == (match frames_of(version, flags, body@) {
            Err(f) => Err(f),
            Ok(frames) => frames_timestamp(version, flags, frames, None),
        }),
{
    let body: Vec<u8> = if version == 3 && flags & 0x80 != 0 {
        deunsync(body.as_slice())
    } else {
        body
    };
    let mut from: usize = 0;
    if flags & 0x40 != 0 {
        if body.len() < 4 {
            return Err(Fault::MalformedId3);
        }
        let size = slice_subrange(body.as_slice(), 0, 4);
        assert(size@ =~= body@.take(4));
        let extended: usize = if version == 3 {
            let n: usize = be_size(size)?;
            if n > body.len() {
                return Err(Fault::MalformedId3);
            }
            match n.checked_add(4) {
                Some(n) => n,
                None => {
                    return Err(Fault::MalformedId3);
                },
            }
        } else {
            synchsafe(size)?
        };
        let least: usize = if version == 3 { 10 } else { 6 };
        if extended < least || extended > body.len() {
            return Err(Fault::MalformedId3);
        }
        from = extended;
    }
    let frames = slice_subrange(body.as_slice(), from, body.len());
    assert(frames@ =~= body@.skip(from as int));
    assert(body@.skip(0) =~= body@);
    scan_frames(version, flags, frames)
}

/// Reads one tag, whose `ID3` mark has been read already, and adds its size to
/// `consumed`. The bound on `consumed` holds over all the tags of a scan, so a
/// run of tags cannot delay audio forever.
pub fn read(input: &mut ByteReader, consumed: &mut usize) -> (r: Result<Option<i64>, Fault>)
    requires
        old(input).wf(),
    ensures
        final(input).wf(),
        final(input).bytes == old(input).bytes,
        ({
            let read = tag_at(old(input).bytes@, old(input).pos as int, *old(consumed) as int);
            &&& r == read.out
            &&& final(input).pos == read.end
            &&& *final(consumed) == read.consumed
        }),
{
    proof {
        reveal(tag_at);
    }
    let header: Vec<u8> = input.read_exact(7)?;
    let version: u8 = header[0];
    let flags: u8 = header[2];
    if version != 3 && version != 4 {
        return Err(Fault::Id3Version);
    }
    let reserved: u8 = if version == 3 { 0x1f } else { 0x0f };
    if header[1] == 255 || flags & reserved != 0 {
        return Err(Fault::MalformedId3);
    }
    let size_bytes = slice_subrange(header.as_slice(), 3, 7);
    let size: usize = match synchsafe(size_bytes) {
        Ok(n) => n,
        Err(f) => {
            return Err(f);
        },
    };
    let footer: bool = version == 4 && flags & 0x10 != 0;
    let tail_len: usize = if footer { 10 } else { 0 };
    let used: usize = match consumed.checked_add(size + 10 + tail_len) {
        Some(n) => n,
        None => {
            return Err(Fault::MalformedId3);
        },
    };
    *consumed = used;
    if used > MAX_METADATA_BYTES {
        return Err(Fault::Id3TooLarge);
    }
    let body: Vec<u8> = input.read_exact(size)?;
    if footer {
        let tail: Vec<u8> = input.read_exact(10)?;
        let mark = slice_subrange(tail.as_slice(), 0, 3);
        let echo = slice_subrange(tail.as_slice(), 3, 10);
        let same: bool = mark[0] == 0x33 && mark[1] == 0x44 && mark[2] == 0x49 && same_bytes(
            echo,
            header.as_slice(),
        );
        assert(tail@ =~= tail@.subrange(0, 3) + tail@.subrange(3, 10));
        if !same {
            assert(tail@ != footer_mark() + header@) by {
                if tail@ == footer_mark() + header@ {
                    assert(echo@ =~= header@);
                    assert(tail@[0] == 0x33 && tail@[1] == 0x44 && tail@[2] == 0x49);
                }
            }
            return Err(Fault::MalformedId3);
        }
        assert(tail@ =~= footer_mark() + header@);
    }
    body_timestamp(version, flags, body)
}

} // verus!
