//! The on-the-wire shape of an interned reference: a fixed-size record of
//! an absolute byte offset and a length, each stored as four little-endian
//! bytes. A record is self-contained: resolving it needs only the
//! surrounding buffer, never the write-time registry.

use vstd::prelude::*;
use crate::errors::ReaderError;

verus! {

/// The number of buffer bytes one reference record occupies.
pub const REF_RECORD_BYTES: usize = 8;

/// An archived interned-string reference: the absolute offset of the stored
/// payload bytes and their length. Every occurrence of a payload, first or
/// repeated, is represented by one such record; only the payload bytes
/// themselves are deduplicated.
#[derive(Debug, Clone, Copy, PartialEq, Eq, Structural)]
pub struct ArchivedRkyvInternedString {
    /// Absolute offset of the payload's first byte in the buffer.
    pub pos: u32,
    /// Length of the payload in bytes.
    pub len: u32,
}

/// The resolver for an interned string: the position and length assigned
/// when the payload was serialized, kept until the reference record is
/// stamped out at its occurrence site.
#[derive(Debug, Clone, Copy, PartialEq, Eq, Structural)]
pub struct InternedResolver {
    /// Absolute offset of the payload's first byte in the buffer.
    pub pos: u32,
    /// Length of the payload in bytes.
    pub len: u32,
}

/// The four little-endian bytes of a 32-bit value.
pub open spec fn u32_le(x: u32) -> Seq<u8> {
    seq![
        (x & 0xff) as u8,
        ((x >> 8) & 0xff) as u8,
        ((x >> 16) & 0xff) as u8,
        ((x >> 24) & 0xff) as u8,
    ]
}

/// The 32-bit value held by four little-endian bytes.
pub open spec fn u32_from_le(b0: u8, b1: u8, b2: u8, b3: u8) -> u32 {
    (b0 as u32) | ((b1 as u32) << 8) | ((b2 as u32) << 16) | ((b3 as u32) << 24)
}

/// The eight bytes of a reference record for a payload at `pos` of `len`
/// bytes.
pub open spec fn ref_record_bytes(pos: u32, len: u32) -> Seq<u8> {
    u32_le(pos) + u32_le(len)
}

/// The reference record stored at position `q` of the buffer, or `None`
/// when fewer than eight bytes remain there.
pub open spec fn record_at(buf: Seq<u8>, q: int) -> Option<ArchivedRkyvInternedString> {
    if 0 <= q && q + REF_RECORD_BYTES <= buf.len() {
        Some(ArchivedRkyvInternedString {
            pos: u32_from_le(buf[q], buf[q + 1], buf[q + 2], buf[q + 3]),
            len: u32_from_le(buf[q + 4], buf[q + 5], buf[q + 6], buf[q + 7]),
        })
    } else {
        None
    }
}

/// The payload bytes a record references, or `None` when the referenced
/// range ends past the buffer.
pub open spec fn resolve_record(buf: Seq<u8>, rec: ArchivedRkyvInternedString) -> Option<Seq<u8>> {
    if rec.pos + rec.len <= buf.len() {
        Some(buf.subrange(rec.pos as int, rec.pos + rec.len))
    } else {
        None
    }
}

/// The payload bytes referenced by the record stored at position `q`, or
/// `None` when the record or its target lies outside the buffer.
pub open spec fn resolve_at(buf: Seq<u8>, q: int) -> Option<Seq<u8>> {
    match record_at(buf, q) {
        Some(rec) => resolve_record(buf, rec),
        None => None,
    }
}

/// Reading back the four little-endian bytes of a value recovers it.
pub proof fn lemma_u32_le_round_trip(x: u32)
    ensures
        u32_le(x).len() == 4,
        u32_from_le(u32_le(x)[0], u32_le(x)[1], u32_le(x)[2], u32_le(x)[3]) == x,
{
    let b0 = (x & 0xff) as u8;
    let b1 = ((x >> 8) & 0xff) as u8;
    let b2 = ((x >> 16) & 0xff) as u8;
    let b3 = ((x >> 24) & 0xff) as u8;
    assert(((b0 as u32) | ((b1 as u32) << 8) | ((b2 as u32) << 16) | ((b3 as u32) << 24)) == x)
        by (bit_vector)
        requires
            b0 == (x & 0xff) as u8,
            b1 == ((x >> 8) & 0xff) as u8,
            b2 == ((x >> 16) & 0xff) as u8,
            b3 == ((x >> 24) & 0xff) as u8,
    ;
}

/// A record read from a buffer extension is the record read from the
/// original buffer, as long as it lay wholly inside the original.
pub proof fn lemma_record_at_prefix_stable(buf: Seq<u8>, ext: Seq<u8>, q: int)
    requires
        0 <= q,
        q + REF_RECORD_BYTES <= buf.len(),
    ensures
        record_at(buf + ext, q) == record_at(buf, q),
{
}

/// Resolving a record against a buffer extension yields the same payload,
/// as long as record and payload lay wholly inside the original buffer.
pub proof fn lemma_resolve_at_prefix_stable(buf: Seq<u8>, ext: Seq<u8>, q: int)
    requires
        0 <= q,
        q + REF_RECORD_BYTES <= buf.len(),
        resolve_at(buf, q) is Some,
    ensures
        resolve_at(buf + ext, q) == resolve_at(buf, q),
{
    let rec = record_at(buf, q).unwrap();
    assert((buf + ext).subrange(rec.pos as int, rec.pos + rec.len) =~= buf.subrange(
        rec.pos as int,
        rec.pos + rec.len,
    ));
}

/// A record appended at the end of the buffer reads back as written.
pub proof fn lemma_record_at_append(buf: Seq<u8>, pos: u32, len: u32)
    ensures
        record_at(buf + ref_record_bytes(pos, len), buf.len() as int) == Some(
            ArchivedRkyvInternedString { pos, len },
        ),
{
    lemma_u32_le_round_trip(pos);
    lemma_u32_le_round_trip(len);
    let s = buf + ref_record_bytes(pos, len);
    let q = buf.len() as int;
    assert(s[q] == u32_le(pos)[0] && s[q + 1] == u32_le(pos)[1] && s[q + 2] == u32_le(pos)[2]
        && s[q + 3] == u32_le(pos)[3]);
    assert(s[q + 4] == u32_le(len)[0] && s[q + 5] == u32_le(len)[1] && s[q + 6] == u32_le(len)[2]
        && s[q + 7] == u32_le(len)[3]);
}

impl ArchivedRkyvInternedString {
    /// The eight buffer bytes that represent this record.
    pub open spec fn spec_bytes(self) -> Seq<u8> {
        ref_record_bytes(self.pos, self.len)
    }

    /// Builds the eight wire bytes of a record for a payload at `pos` of
    /// `len` bytes.
    pub fn encode(pos: u32, len: u32) -> (r: Vec<u8>)
        ensures
            r@ == ref_record_bytes(pos, len),
    {
        let mut out: Vec<u8> = Vec::new();
        out.push((pos & 0xff) as u8);
        out.push(((pos >> 8) & 0xff) as u8);
        out.push(((pos >> 16) & 0xff) as u8);
        out.push(((pos >> 24) & 0xff) as u8);
        out.push((len & 0xff) as u8);
        out.push(((len >> 8) & 0xff) as u8);
        out.push(((len >> 16) & 0xff) as u8);
        out.push(((len >> 24) & 0xff) as u8);
        proof {
            assert(out@ =~= ref_record_bytes(pos, len));
        }
        out
    }

    /// Reads the record stored at position `q` of the buffer.
    pub fn read_from(buf: &Vec<u8>, q: usize) -> (r: Result<ArchivedRkyvInternedString, ReaderError>)
        ensures
            match r {
                Ok(rec) => record_at(buf@, q as int) == Some(rec),
                Err(e) => record_at(buf@, q as int) is None && e == ReaderError::TruncatedRecord,
            },
    {
        if buf.len() < REF_RECORD_BYTES || q > buf.len() - REF_RECORD_BYTES {
            return Err(ReaderError::TruncatedRecord);
        }
        let pos = u32_from_le_exec(buf[q], buf[q + 1], buf[q + 2], buf[q + 3]);
        let len = u32_from_le_exec(buf[q + 4], buf[q + 5], buf[q + 6], buf[q + 7]);
        Ok(ArchivedRkyvInternedString { pos, len })
    }

    /// Copies the payload bytes this record references out of the buffer.
    pub fn resolve(self, buf: &Vec<u8>) -> (r: Result<Vec<u8>, ReaderError>)
        ensures
            match r {
                Ok(payload) => resolve_record(buf@, self) == Some(payload@),
                Err(e) => resolve_record(buf@, self) is None && e == ReaderError::OutOfBounds,
            },
    {
        if self.len as usize > buf.len() || self.pos as usize > buf.len() - self.len as usize {
            return Err(ReaderError::OutOfBounds);
        }
        let start = self.pos as usize;
        let end = start + self.len as usize;
        let mut out: Vec<u8> = Vec::new();
        let mut i = start;
        while i < end
            invariant
                start <= i <= end <= buf@.len(),
                out@ =~= buf@.subrange(start as int, i as int),
            decreases end - i,
        {
            out.push(buf[i]);
            i = i + 1;
        }
        proof {
            assert(out@ =~= buf@.subrange(self.pos as int, self.pos + self.len));
        }
        Ok(out)
    }
}

/// Assembles a 32-bit value from four little-endian bytes.
fn u32_from_le_exec(b0: u8, b1: u8, b2: u8, b3: u8) -> (r: u32)
    ensures
        r == u32_from_le(b0, b1, b2, b3),
{
    (b0 as u32) | ((b1 as u32) << 8) | ((b2 as u32) << 16) | ((b3 as u32) << 24)
}

} // verus!
