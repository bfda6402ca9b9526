//! Byte-level helpers: comparison, big-endian numbers, and a reading position
//! over a segment held in memory.

use vstd::prelude::*;
use vstd::slice::{slice_subrange, slice_to_vec};
use crate::fault::Fault;

verus! {

/// The bytes of a text made of ASCII characters.
pub open spec fn ascii(text: Seq<char>) -> Seq<u8> {
    Seq::new(text.len(), |i: int| text[i] as u8)
}

/// The number that a byte sequence spells, most significant byte first.
pub open spec fn be_value(b: Seq<u8>) -> nat
    decreases b.len(),
{
    if b.len() == 0 {
        0
    } else {
        be_value(b.drop_last()) * 256 + b.last() as nat
    }
}

/// Whether two byte slices hold the same bytes.
pub fn same_bytes(a: &[u8], b: &[u8]) -> (r: bool)
    ensures
        r == (a@ == b@),
{
    if a.len() != b.len() {
        return false;
    }
    let mut i: usize = 0;
    while i < a.len()
        invariant
            i <= a@.len(),
            a@.len() == b@.len(),
            forall|j: int| 0 <= j < i ==> a@[j] == b@[j],
        decreases a@.len() - i,
    {
        if a[i] != b[i] {
            return false;
        }
        i += 1;
    }
    assert(a@ =~= b@);
    true
}

/// Whether a byte slice holds exactly the characters of an ASCII text.
pub fn is_ascii_text(b: &[u8], text: &str) -> (r: bool)
    requires
        vstd::utf8::is_ascii_chars(text@),
    ensures
        r == (b@ == ascii(text@)),
{
    proof {
        vstd::utf8::is_ascii_chars_encode_utf8(text@);
        assert(vstd::utf8::encode_utf8(text@) =~= ascii(text@));
    }
    same_bytes(b, text.as_bytes())
}

/// A big-endian number is bounded by the room that its bytes give.
pub proof fn lemma_be_value_bound(b: Seq<u8>)
    ensures
        be_value(b) < vstd::arithmetic::power2::pow2(8 * b.len()),
    decreases b.len(),
{
    vstd::arithmetic::power2::lemma2_to64();
    if b.len() > 0 {
        lemma_be_value_bound(b.drop_last());
        vstd::arithmetic::power2::lemma_pow2_adds(8 * (b.len() - 1) as nat, 8);
        assert(8 * (b.len() - 1) as nat + 8 == 8 * b.len());
    }
}

/// Decodes a big-endian number of at most eight bytes.
pub fn be_number(b: &[u8]) -> (r: u64)
    requires
        b@.len() <= 8,
    ensures
        r == be_value(b@),
{
    let mut n: u64 = 0;
    let mut i: usize = 0;
    while i < b.len()
        invariant
            i <= b@.len() <= 8,
            n == be_value(b@.take(i as int)),
        decreases b@.len() - i,
    {
        proof {
            let next = b@.take(i + 1);
            assert(next.drop_last() =~= b@.take(i as int));
            assert(next.last() == b@[i as int]);
            lemma_be_value_bound(next);
            vstd::arithmetic::power2::lemma2_to64();
            if i < 7 {
                vstd::arithmetic::power2::lemma_pow2_strictly_increases(
                    (8 * (i + 1)) as nat,
                    64,
                );
            }
            assert(be_value(next) == n * 256 + b@[i as int]);
        }
        n = n * 256 + b[i] as u64;
        i += 1;
    }
    assert(b@.take(i as int) =~= b@);
    n
}

/// A segment held in memory, with the position of the next read.
#[derive(Debug)]
pub struct ByteReader {
    pub bytes: Vec<u8>,
    pub pos: usize,
}

impl ByteReader {
    /// The position lies within the segment or at its end.
    pub open spec fn wf(self) -> bool {
        self.pos <= self.bytes@.len()
    }

    /// Starts at the first byte.
    pub fn new(bytes: Vec<u8>) -> (r: ByteReader)
        ensures
            r.wf(),
            r.bytes@ == bytes@,
            r.pos == 0,
    {
        ByteReader { bytes, pos: 0 }
    }

    /// Moves past exactly `n` bytes and returns where they start. Where fewer
    /// are left, nothing is left after the failed read.
    pub fn skip_exact(&mut self, n: usize) -> (r: Result<usize, Fault>)
        requires
            old(self).wf(),
        ensures
            final(self).wf(),
            final(self).bytes == old(self).bytes,
            if old(self).pos + n <= old(self).bytes@.len() {
                &&& r == Ok::<usize, Fault>(old(self).pos)
                &&& final(self).pos == old(self).pos + n
            } else {
                &&& r == Err::<usize, Fault>(Fault::Truncated)
                &&& final(self).pos == old(self).bytes@.len()
            },
    {
        let from: usize = self.pos;
        if n > self.bytes.len() - from {
            self.pos = self.bytes.len();
            return Err(Fault::Truncated);
        }
        self.pos = from + n;
        Ok(from)
    }

    /// Reads exactly `n` bytes. Where fewer are left, nothing is left after the
    /// failed read.
    pub fn read_exact(&mut self, n: usize) -> (r: Result<Vec<u8>, Fault>)
        requires
            old(self).wf(),
        ensures
            final(self).wf(),
            final(self).bytes == old(self).bytes,
            if old(self).pos + n <= old(self).bytes@.len() {
                &&& r matches Ok(v)
                &&& v@ == old(self).bytes@.subrange(old(self).pos as int, old(self).pos + n)
                &&& final(self).pos == old(self).pos + n
            } else {
                &&& r == Err::<Vec<u8>, Fault>(Fault::Truncated)
                &&& final(self).pos == old(self).bytes@.len()
            },
    {
        let from: usize = self.skip_exact(n)?;
        Ok(slice_to_vec(slice_subrange(self.bytes.as_slice(), from, self.pos)))
    }
}

} // verus!
