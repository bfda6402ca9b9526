//! ID3 tags, told by their bytes.

use vstd::prelude::*;
use crate::fault::Fault;

verus! {

/// Numbers are spelled with the most significant byte first.
pub proof fn law_bytes_append_to_numbers(bytes: Seq<u8>, b: u8)
    ensures
        crate::bytes::be_value(seq![]) == 0,
        crate::bytes::be_value(bytes.push(b)) == crate::bytes::be_value(bytes) * 256 + b,
{
    assert(bytes.push(b).drop_last() =~= bytes);
}

/// Synchsafe numbers have four bytes of seven bits.
pub proof fn law_synchsafe_numbers(b: Seq<u8>)
    ensures
        b.len() != 4 ==> crate::packed_audio::id3::synchsafe_value(b) is None,
        b.len() == 4 && (b[0] > 127 || b[1] > 127 || b[2] > 127 || b[3] > 127)
            ==> crate::packed_audio::id3::synchsafe_value(b) is None,
        b.len() == 4 && b[0] <= 127 && b[1] <= 127 && b[2] <= 127 && b[3] <= 127
            ==> crate::packed_audio::id3::synchsafe_value(b) == Some(
            (((b[0] * 128 + b[1]) * 128 + b[2]) * 128 + b[3]) as nat,
        ),
{
}

/// Of an unsynchronised text, zeros right behind an `0xff` are dropped, one each,
/// and all else stays.
pub proof fn law_unsynchronisation_is_taken_off(b: u8, c: u8, rest: Seq<u8>)
    ensures
        crate::packed_audio::id3::deunsynced(seq![]) == Seq::<u8>::empty(),
        crate::packed_audio::id3::deunsynced(seq![b]) == seq![b],
        crate::packed_audio::id3::deunsynced(seq![0xffu8, 0u8] + rest) == seq![0xffu8]
            + crate::packed_audio::id3::deunsynced(rest),
        b != 0xff ==> crate::packed_audio::id3::deunsynced(seq![b] + rest) == seq![b]
            + crate::packed_audio::id3::deunsynced(rest),
        c != 0 ==> crate::packed_audio::id3::deunsynced(seq![0xffu8, c] + rest) == seq![0xffu8]
            + crate::packed_audio::id3::deunsynced(seq![c] + rest),
{
    reveal_with_fuel(crate::packed_audio::id3::deunsynced, 2);
    assert(seq![b].skip(1) =~= seq![]);
    assert(seq![b] + Seq::<u8>::empty() =~= seq![b]);
    assert((seq![0xffu8, 0u8] + rest).skip(2) =~= rest);
    assert((seq![b] + rest).skip(1) =~= rest);
    assert((seq![0xffu8, c] + rest).skip(1) =~= seq![c] + rest);
    let whole = seq![0xffu8, c] + rest;
    assert(whole[0] == 0xff && whole[1] == c);
}

/// Flags as shares of a byte.
proof fn lemma_flags(b: u8)
    ensures
        b & 0x1fu8 != 0 <==> b % 32 != 0,
        b & 0x0fu8 != 0 <==> b % 16 != 0,
        b & 0x10u8 != 0 <==> (b / 16) % 2 == 1,
        b & 0x80u8 != 0 <==> b >= 128,
        b & 0x40u8 != 0 <==> (b / 64) % 2 == 1,
        b & 0x20u8 != 0 <==> (b / 32) % 2 == 1,
        b & 2u8 != 0 <==> (b / 2) % 2 == 1,
        b & 1u8 != 0 <==> b % 2 == 1,
        b & !0x20u8 != 0 <==> b != 0 && b != 0x20,
        b & !0x43u8 != 0 <==> (b >= 4 && b < 0x40) || b >= 0x44,
{
    assert(b & 0x1fu8 != 0 <==> b % 32 != 0) by (bit_vector);
    assert(b & 0x0fu8 != 0 <==> b % 16 != 0) by (bit_vector);
    assert(b & 0x10u8 != 0 <==> (b / 16) % 2 == 1) by (bit_vector);
    assert(b & 0x80u8 != 0 <==> b >= 128) by (bit_vector);
    assert(b & 0x40u8 != 0 <==> (b / 64) % 2 == 1) by (bit_vector);
    assert(b & 0x20u8 != 0 <==> (b / 32) % 2 == 1) by (bit_vector);
    assert(b & 2u8 != 0 <==> (b / 2) % 2 == 1) by (bit_vector);
    assert(b & 1u8 != 0 <==> b % 2 == 1) by (bit_vector);
    assert(b & !0x20u8 != 0 <==> b != 0 && b != 0x20) by (bit_vector);
    assert(b & !0x43u8 != 0 <==> (b >= 4 && b < 0x40) || b >= 0x44) by (bit_vector);
}

/// Whether the header behind a mark is sound: a known version, a revision that is
/// used, no unknown flag, and a synchsafe size.
pub open spec fn sound(s: Seq<u8>, pos: int) -> bool {
    &&& pos + 7 <= s.len()
    &&& s[pos] == 3 || s[pos] == 4
    &&& s[pos + 1] != 255
    &&& s[pos] == 3 ==> s[pos + 2] % 32 == 0
    &&& s[pos] == 4 ==> s[pos + 2] % 16 == 0
    &&& s[pos + 3] <= 127 && s[pos + 4] <= 127 && s[pos + 5] <= 127 && s[pos + 6] <= 127
}

/// The size of the body that a sound header announces.
pub open spec fn announced(s: Seq<u8>, pos: int) -> int {
    ((s[pos + 3] * 128 + s[pos + 4]) * 128 + s[pos + 5]) * 128 + s[pos + 6]
}

/// The bytes of a footer: ten where version 2.4 announces one, else none.
pub open spec fn footer(s: Seq<u8>, pos: int) -> int {
    if s[pos] == 4 && (s[pos + 2] / 16) % 2 == 1 {
        10
    } else {
        0
    }
}

/// Whether a footer repeats the header behind the bytes of `3DI`.
pub open spec fn repeats(s: Seq<u8>, pos: int, at: int) -> bool {
    &&& s[at] == 0x33 && s[at + 1] == 0x44 && s[at + 2] == 0x49
    &&& s[at + 3] == s[pos] && s[at + 4] == s[pos + 1] && s[at + 5] == s[pos + 2]
    &&& s[at + 6] == s[pos + 3] && s[at + 7] == s[pos + 4] && s[at + 8] == s[pos + 5] && s[at + 9]
        == s[pos + 6]
}

/// The header in a segment says what its bytes say.
proof fn lemma_header(s: Seq<u8>, pos: int)
    requires
        0 <= pos,
        pos + 7 <= s.len(),
    ensures
        ({
            let h = s.subrange(pos, pos + 7);
            let size = crate::packed_audio::id3::body_size(h);
            &&& s[pos] != 3 && s[pos] != 4 ==> size == Err::<nat, Fault>(Fault::Id3Version)
            &&& (s[pos] == 3 || s[pos] == 4) && !sound(s, pos) ==> size == Err::<nat, Fault>(
                Fault::MalformedId3,
            )
            &&& sound(s, pos) ==> size == Ok::<nat, Fault>(announced(s, pos) as nat)
            &&& crate::packed_audio::id3::has_footer(h) <==> footer(s, pos) == 10
            &&& h[0] == s[pos] && h[2] == s[pos + 2]
            &&& announced(s, pos) >= 0
        }),
{
    let h = s.subrange(pos, pos + 7);
    lemma_flags(s[pos + 2]);
    assert(h[0] == s[pos] && h[1] == s[pos + 1] && h[2] == s[pos + 2]);
    let b = h.subrange(3, 7);
    assert(b[0] == s[pos + 3] && b[1] == s[pos + 4] && b[2] == s[pos + 5] && b[3] == s[pos + 6]);
    law_synchsafe_numbers(b);
}

/// A tag is refused for a header that is cut off, for its version, for its
/// header, for its share in more than one mebibyte, for a body that is cut off,
/// and for a footer that does not repeat the header, in this order. Reading stops
/// behind the header, at the end of the input or behind the tag, and the tag
/// counts as soon as its size is known.
pub proof fn law_refused_tags(s: Seq<u8>, pos: int, consumed: int)
    requires
        0 <= pos <= s.len(),
        0 <= consumed,
    ensures
        ({
            let tag = crate::packed_audio::id3::tag_at(s, pos, consumed);
            let refused = |f: Fault| Err::<Option<i64>, Fault>(f);
            let used = consumed + 10 + announced(s, pos) + footer(s, pos);
            let end = pos + 7 + announced(s, pos) + footer(s, pos);
            &&& s.len() < pos + 7 ==> tag.out == refused(Fault::Truncated) && tag.end == s.len()
                && tag.consumed == consumed
            &&& s.len() >= pos + 7 && s[pos] != 3 && s[pos] != 4 ==> tag.out == refused(
                Fault::Id3Version,
            ) && tag.end == pos + 7 && tag.consumed == consumed
            &&& s.len() >= pos + 7 && (s[pos] == 3 || s[pos] == 4) && !sound(s, pos) ==> tag.out
                == refused(Fault::MalformedId3) && tag.end == pos + 7 && tag.consumed == consumed
            &&& sound(s, pos) && used > usize::MAX ==> tag.out == refused(Fault::MalformedId3)
                && tag.end == pos + 7 && tag.consumed == consumed
            &&& sound(s, pos) && 1048576 < used <= usize::MAX ==> tag.out == refused(
                Fault::Id3TooLarge,
            ) && tag.end == pos + 7 && tag.consumed == used
            &&& sound(s, pos) && used <= 1048576 && end > s.len() ==> tag.out == refused(
                Fault::Truncated,
            ) && tag.end == s.len() && tag.consumed == used
            &&& sound(s, pos) && used <= 1048576 && end <= s.len() && footer(s, pos) == 10
                && !repeats(s, pos, end - 10) ==> tag.out == refused(Fault::MalformedId3)
                && tag.end == end && tag.consumed == used
        }),
{
    reveal(crate::packed_audio::id3::tag_at);
    if s.len() >= pos + 7 {
        lemma_header(s, pos);
        let end = pos + 7 + announced(s, pos) + footer(s, pos);
        if sound(s, pos) && end <= s.len() && footer(s, pos) == 10 {
            lemma_footer(s, pos, end - 10);
        }
    }
}

/// A footer is the header behind its own mark.
proof fn lemma_footer(s: Seq<u8>, pos: int, at: int)
    requires
        0 <= pos,
        pos + 7 <= at,
        at + 10 <= s.len(),
    ensures
        s.subrange(at, at + 10) == crate::packed_audio::id3::footer_mark() + s.subrange(
            pos,
            pos + 7,
        ) <==> repeats(s, pos, at),
{
    let left = s.subrange(at, at + 10);
    let right = crate::packed_audio::id3::footer_mark() + s.subrange(pos, pos + 7);
    assert(left[0] == s[at] && left[1] == s[at + 1] && left[2] == s[at + 2] && left[3] == s[at + 3]
        && left[4] == s[at + 4] && left[5] == s[at + 5] && left[6] == s[at + 6] && left[7] == s[at
        + 7] && left[8] == s[at + 8] && left[9] == s[at + 9]);
    assert(right[0] == 0x33 && right[1] == 0x44 && right[2] == 0x49 && right[3] == s[pos]
        && right[4] == s[pos + 1] && right[5] == s[pos + 2] && right[6] == s[pos + 3] && right[7]
        == s[pos + 4] && right[8] == s[pos + 5] && right[9] == s[pos + 6]);
    if repeats(s, pos, at) {
        assert(left =~= right);
    }
}

/// Whether a tag is complete: sound, within the bound, all there, and with the
/// footer that it announces.
pub open spec fn whole(s: Seq<u8>, pos: int, consumed: int) -> bool {
    let end = pos + 7 + announced(s, pos) + footer(s, pos);
    &&& 0 <= pos
    &&& sound(s, pos)
    &&& consumed + 10 + announced(s, pos) + footer(s, pos) <= 1048576
    &&& end <= s.len()
    &&& footer(s, pos) == 10 ==> repeats(s, pos, end - 10)
}

/// The body of a tag. Version 2.3 may have it unsynchronised.
pub open spec fn body_of(s: Seq<u8>, pos: int) -> Seq<u8> {
    let body = s.subrange(pos + 7, pos + 7 + announced(s, pos));
    if s[pos] == 3 && s[pos + 2] >= 128 {
        crate::packed_audio::id3::deunsynced(body)
    } else {
        body
    }
}

/// A complete tag is read up to its end, footer included, and counts with all of
/// its bytes. Without an extended header, the whole body is frames.
pub proof fn law_complete_tags(s: Seq<u8>, pos: int, consumed: int)
    requires
        0 <= consumed <= 1048576,
        whole(s, pos, consumed),
    ensures
        ({
            let tag = crate::packed_audio::id3::tag_at(s, pos, consumed);
            &&& tag.end == pos + 7 + announced(s, pos) + footer(s, pos)
            &&& tag.consumed == consumed + 10 + announced(s, pos) + footer(s, pos)
            &&& (s[pos + 2] / 64) % 2 == 0 ==> tag.out
                == crate::packed_audio::id3::frames_timestamp(
                s[pos],
                s[pos + 2],
                body_of(s, pos),
                None,
            )
        }),
{
    reveal(crate::packed_audio::id3::tag_at);
    lemma_header(s, pos);
    lemma_flags(s[pos + 2]);
    let end = pos + 7 + announced(s, pos) + footer(s, pos);
    if footer(s, pos) == 10 {
        lemma_footer(s, pos, end - 10);
    }
}

/// An extended header precedes the frames. In version 2.3 its four-byte number
/// does not count itself and is at least six; in version 2.4 it is synchsafe,
/// counts itself and is at least six. It lies within the body.
pub proof fn law_extended_headers(s: Seq<u8>, pos: int, consumed: int)
    requires
        0 <= consumed <= 1048576,
        whole(s, pos, consumed),
        (s[pos + 2] / 64) % 2 == 1,
    ensures
        ({
            let tag = crate::packed_audio::id3::tag_at(s, pos, consumed);
            let b = body_of(s, pos);
            let plain = ((b[0] * 256 + b[1]) * 256 + b[2]) * 256 + b[3];
            let safe = ((b[0] * 128 + b[1]) * 128 + b[2]) * 128 + b[3];
            let fits = b.len() >= 4 && (s[pos] == 3 ==> 6 <= plain && plain + 4 <= b.len()) && (
            s[pos] == 4 ==> b[0] <= 127 && b[1] <= 127 && b[2] <= 127 && b[3] <= 127 && 6 <= safe
                && safe <= b.len());
            &&& !fits ==> tag.out == Err::<Option<i64>, Fault>(Fault::MalformedId3)
            &&& fits && s[pos] == 3 ==> tag.out == crate::packed_audio::id3::frames_timestamp(
                3u8,
                s[pos + 2],
                b.skip(plain + 4),
                None,
            )
            &&& fits && s[pos] == 4 ==> tag.out == crate::packed_audio::id3::frames_timestamp(
                4u8,
                s[pos + 2],
                b.skip(safe),
                None,
            )
        }),
{
    reveal(crate::packed_audio::id3::tag_at);
    lemma_header(s, pos);
    lemma_flags(s[pos + 2]);
    let end = pos + 7 + announced(s, pos) + footer(s, pos);
    if footer(s, pos) == 10 {
        lemma_footer(s, pos, end - 10);
    }
    let b = body_of(s, pos);
    if b.len() >= 4 {
        lemma_four_bytes(b.take(4));
        law_synchsafe_numbers(b.take(4));
        assert(b.take(4)[0] == b[0] && b.take(4)[1] == b[1] && b.take(4)[2] == b[2] && b.take(4)[3]
            == b[3]);
    }
}

/// The number that four bytes spell.
proof fn lemma_four_bytes(b: Seq<u8>)
    requires
        b.len() == 4,
    ensures
        crate::bytes::be_value(b) == ((b[0] * 256 + b[1]) * 256 + b[2]) * 256 + b[3],
{
    reveal_with_fuel(crate::bytes::be_value, 5);
    assert(b.drop_last().last() == b[2]);
    assert(b.drop_last().drop_last().last() == b[1]);
    assert(b.drop_last().drop_last().drop_last().last() == b[0]);
    assert(b.drop_last().drop_last().drop_last().drop_last() =~= seq![]);
}

/// A letter or a digit of a frame's identifier.
pub open spec fn letter(b: u8) -> bool {
    (b >= 65 && b <= 90) || (b >= 48 && b <= 57)
}

/// The size in the header of the frame at the head of a run.
pub open spec fn framed(version: u8, frames: Seq<u8>) -> int {
    if version == 3 {
        ((frames[4] * 256 + frames[5]) * 256 + frames[6]) * 256 + frames[7]
    } else {
        ((frames[4] * 128 + frames[5]) * 128 + frames[6]) * 128 + frames[7]
    }
}

/// Whether a run of frames opens with a well-formed frame that is all there.
pub open spec fn opens_with_frame(version: u8, frames: Seq<u8>) -> bool {
    &&& frames.len() >= 10
    &&& letter(frames[0]) && letter(frames[1]) && letter(frames[2]) && letter(frames[3])
    &&& version != 3 ==> frames[4] <= 127 && frames[5] <= 127 && frames[6] <= 127 && frames[7]
        <= 127
    &&& framed(version, frames) + 10 <= frames.len()
}

/// Whether a frame's identifier spells `PRIV`.
pub open spec fn private(frames: Seq<u8>) -> bool {
    frames[0] == 0x50 && frames[1] == 0x52 && frames[2] == 0x49 && frames[3] == 0x56
}

/// The first frame is as long as its header says.
proof fn lemma_first_frame(version: u8, frames: Seq<u8>)
    ensures
        crate::packed_audio::id3::first_frame_len(version, frames) == (if opens_with_frame(
            version,
            frames,
        ) {
            Some((framed(version, frames) + 10) as nat)
        } else {
            None
        }),
        frames.len() >= 10 ==> framed(version, frames) >= 0,
        opens_with_frame(version, frames) ==> (frames.take(framed(version, frames) + 10).take(4)
            == crate::packed_audio::id3::priv_id() <==> private(frames)),
{
    if frames.len() >= 10 {
        let b = frames.subrange(4, 8);
        lemma_four_bytes(b);
        law_synchsafe_numbers(b);
        assert(b[0] == frames[4] && b[1] == frames[5] && b[2] == frames[6] && b[3] == frames[7]);
        let bad = exists|i: int|
            0 <= i < 4 && !crate::packed_audio::id3::id_byte(#[trigger] frames[i]);
        assert(bad <==> !(letter(frames[0]) && letter(frames[1]) && letter(frames[2]) && letter(
            frames[3],
        ))) by {
            assert forall|i: int| 0 <= i < 4 implies (crate::packed_audio::id3::id_byte(
                #[trigger] frames[i],
            ) <==> letter(frames[i])) by {}
            if !letter(frames[0]) {
                assert(!crate::packed_audio::id3::id_byte(frames[0]));
            }
            if !letter(frames[1]) {
                assert(!crate::packed_audio::id3::id_byte(frames[1]));
            }
            if !letter(frames[2]) {
                assert(!crate::packed_audio::id3::id_byte(frames[2]));
            }
            if !letter(frames[3]) {
                assert(!crate::packed_audio::id3::id_byte(frames[3]));
            }
        }
        if opens_with_frame(version, frames) {
            let id = frames.take(framed(version, frames) + 10).take(4);
            let name = seq![0x50u8, 0x52, 0x49, 0x56];
            assert(id[0] == frames[0] && id[1] == frames[1] && id[2] == frames[2] && id[3]
                == frames[3]);
            if private(frames) {
                assert(id =~= name);
            }
        }
    }
}

/// Nothing behind the frames, or zeros only, leaves the timestamp that was seen.
/// Zeros that something follows are refused, and so is what does not open with a
/// well-formed frame.
pub proof fn law_ends_of_frames(version: u8, flags: u8, frames: Seq<u8>, seen: Option<i64>)
    ensures
        ({
            let r = crate::packed_audio::id3::frames_timestamp(version, flags, frames, seen);
            let zeros = forall|i: int| 0 <= i < frames.len() ==> frames[i] == 0;
            &&& zeros ==> r == Ok::<Option<i64>, Fault>(seen)
            &&& !zeros && frames[0] == 0 ==> r == Err::<Option<i64>, Fault>(Fault::MalformedId3)
            &&& frames.len() > 0 && frames[0] != 0 && !opens_with_frame(version, frames) ==> r
                == Err::<Option<i64>, Fault>(Fault::MalformedId3)
        }),
{
    lemma_first_frame(version, frames);
}

/// A frame other than `PRIV` is skipped by its size.
pub proof fn law_other_frames_are_skipped(
    version: u8,
    flags: u8,
    frames: Seq<u8>,
    seen: Option<i64>,
)
    requires
        opens_with_frame(version, frames),
        !private(frames),
    ensures
        crate::packed_audio::id3::frames_timestamp(version, flags, frames, seen)
            == crate::packed_audio::id3::frames_timestamp(
            version,
            flags,
            frames.skip(framed(version, frames) + 10),
            seen,
        ),
{
    lemma_first_frame(version, frames);
}

/// A `PRIV` frame whose content carries no timestamp is skipped; one that carries
/// one gives it to the run, where it must agree with the one that was seen; and
/// one that cannot be read ends the run.
pub proof fn law_private_frames(version: u8, flags: u8, frames: Seq<u8>, seen: Option<i64>)
    requires
        opens_with_frame(version, frames),
        private(frames),
    ensures
        ({
            let n = framed(version, frames) + 10;
            let r = crate::packed_audio::id3::frames_timestamp(version, flags, frames, seen);
            let content = crate::packed_audio::id3::priv_content(
                version,
                flags,
                frames[9],
                frames.subrange(10, n),
            );
            let stamp = crate::packed_audio::id3::content_timestamp(content->Ok_0);
            let found = stamp->Ok_0;
            let good = content is Ok && stamp is Ok;
            &&& content is Err ==> r == Err::<Option<i64>, Fault>(content->Err_0)
            &&& content is Ok && stamp is Err ==> r == Err::<Option<i64>, Fault>(stamp->Err_0)
            &&& good && found is None ==> r == crate::packed_audio::id3::frames_timestamp(
                version,
                flags,
                frames.skip(n),
                seen,
            )
            &&& good && found is Some && seen is Some && seen != found ==> r == Err::<
                Option<i64>,
                Fault,
            >(Fault::ConflictingTagTimestamps)
            &&& good && found is Some && (seen is None || seen == found) ==> r
                == crate::packed_audio::id3::frames_timestamp(
                version,
                flags,
                frames.skip(n),
                found,
            )
        }),
{
    lemma_first_frame(version, frames);
    let n = framed(version, frames) + 10;
    let frame = frames.take(n);
    assert(frame.skip(10) =~= frames.subrange(10, n));
    assert(frame[9] == frames[9]);
}

/// In version 2.3, a `PRIV` frame is plain, or has a grouping byte, which is taken
/// off. With any other flag it is compressed or encrypted, and refused.
pub proof fn law_private_payloads_of_version_3(flags: u8, format: u8, payload: Seq<u8>)
    ensures
        ({
            let r = crate::packed_audio::id3::priv_content(3u8, flags, format, payload);
            &&& format == 0 ==> r == Ok::<Seq<u8>, Fault>(payload)
            &&& format == 0x20 && payload.len() > 0 ==> r == Ok::<Seq<u8>, Fault>(payload.skip(1))
            &&& format == 0x20 && payload.len() == 0 ==> r == Err::<Seq<u8>, Fault>(
                Fault::MalformedId3,
            )
            &&& format != 0 && format != 0x20 ==> r == Err::<Seq<u8>, Fault>(Fault::PrivEncoding)
        }),
{
    lemma_flags(format);
}

/// In version 2.4, unsynchronisation is taken off a `PRIV` frame where its own
/// flag or the tag's says so, then its grouping byte, then its data length, which
/// must be right. With any other flag it is compressed or encrypted, and refused.
pub proof fn law_private_payloads_of_version_4(flags: u8, format: u8, payload: Seq<u8>)
    ensures
        ({
            let r = crate::packed_audio::id3::priv_content(4u8, flags, format, payload);
            let known = format <= 3 || 0x40 <= format <= 0x43;
            let plain = if format % 4 >= 2 || flags >= 128 {
                crate::packed_audio::id3::deunsynced(payload)
            } else {
                payload
            };
            let inner = if format >= 0x40 {
                plain.skip(1)
            } else {
                plain
            };
            let grouped = known && !(format >= 0x40 && plain.len() == 0);
            let length = ((inner[0] * 128 + inner[1]) * 128 + inner[2]) * 128 + inner[3];
            let right = inner.len() >= 4 && inner[0] <= 127 && inner[1] <= 127 && inner[2] <= 127
                && inner[3] <= 127 && length == inner.len() - 4;
            &&& !known ==> r == Err::<Seq<u8>, Fault>(Fault::PrivEncoding)
            &&& known && !grouped ==> r == Err::<Seq<u8>, Fault>(Fault::MalformedId3)
            &&& grouped && format % 2 == 0 ==> r == Ok::<Seq<u8>, Fault>(inner)
            &&& grouped && format % 2 == 1 && !right ==> r == Err::<Seq<u8>, Fault>(
                Fault::MalformedId3,
            )
            &&& grouped && format % 2 == 1 && right ==> r == Ok::<Seq<u8>, Fault>(inner.skip(4))
        }),
{
    lemma_flags(format);
    lemma_flags(flags);
    let known = format <= 3 || 0x40 <= format <= 0x43;
    if known {
        assert((format / 2) % 2 == 1 <==> format % 4 >= 2);
        assert((format / 64) % 2 == 1 <==> format >= 0x40);
        let plain = if format % 4 >= 2 || flags >= 128 {
            crate::packed_audio::id3::deunsynced(payload)
        } else {
            payload
        };
        let inner = if format >= 0x40 {
            plain.skip(1)
        } else {
            plain
        };
        if inner.len() >= 4 {
            law_synchsafe_numbers(inner.take(4));
            assert(inner.take(4)[0] == inner[0] && inner.take(4)[1] == inner[1] && inner.take(4)[2]
                == inner[2] && inner.take(4)[3] == inner[3]);
        }
    }
}

/// The bytes of the owner that writes transport timestamps.
pub open spec fn apple() -> Seq<u8> {
    Seq::new(
        "com.apple.streaming.transportStreamTimestamp"@.len(),
        |i: int| "com.apple.streaming.transportStreamTimestamp"@[i] as u8,
    )
}

/// The content of a `PRIV` frame is an owner without a zero, a zero, and a value.
/// Only that of the owner of transport timestamps carries one: eight bytes that
/// spell a number of 33 bits.
pub proof fn law_private_contents(writer: Seq<u8>, value: Seq<u8>)
    requires
        !writer.contains(0u8),
    ensures
        ({
            let content = writer + seq![0u8] + value;
            let r = crate::packed_audio::id3::content_timestamp(content);
            let fits = value.len() == 8 && crate::bytes::be_value(value) < 8589934592;
            &&& writer != apple() ==> r == Ok::<Option<i64>, Fault>(None)
            &&& writer == apple() && !fits ==> r == Err::<Option<i64>, Fault>(Fault::MalformedId3)
            &&& writer == apple() && fits ==> r == Ok::<Option<i64>, Fault>(
                Some(crate::bytes::be_value(value) as i64),
            )
        }),
        crate::packed_audio::id3::content_timestamp(writer) == Err::<Option<i64>, Fault>(
            Fault::MalformedId3,
        ),
{
    let content = writer + seq![0u8] + value;
    let n = writer.len() as int;
    assert(content[n] == 0u8);
    assert(content.contains(0u8));
    content.index_of_first_ensures(0u8);
    let first = content.index_of_first(0u8)->Some_0;
    assert(first == n) by {
        if first < n {
            assert(writer[first] == content[first]);
            assert(writer.contains(0u8));
        }
    }
    assert(content.take(n) =~= writer);
    assert(content.skip(n + 1) =~= value);
    assert(crate::packed_audio::id3::owner() =~= apple());
    writer.index_of_first_ensures(0u8);
}

} // verus!
