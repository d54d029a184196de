//! String-typed wrappers over the byte-level core. A string field is
//! interned by its UTF-8 bytes, so byte-equal strings deduplicate against
//! each other whatever wrapper type they came through; reading resolves
//! the referenced bytes and rebuilds an owned string handle, failing on
//! content that is not valid text instead of aborting.

use vstd::prelude::*;
use vstd::string::StrSliceExecFns;
use vstd::utf8::{encode_utf8, valid_utf8, encode_utf8_decode_utf8};
use crate::adapter::InternAdapter;
use crate::errors::{AdapterError, InternSerializerAdapterError, WriterError, InternError,
    ReaderError};
use crate::registry::InternSerializeRegistry;
use crate::wire::{ArchivedRkyvInternedString, InternedResolver, record_at, resolve_record,
    ref_record_bytes, REF_RECORD_BYTES};

verus! {

/// An owned interned-string handle: the materialized string a reference
/// record was resolved to, or the value a field holds before serializing.
#[derive(Debug, Clone, PartialEq, Eq, Hash)]
pub struct InternedRkyvString(pub String);

impl InternedRkyvString {
    /// The string this handle holds.
    pub fn as_ref(&self) -> (r: &String)
        ensures
            r@ == self.0@,
    {
        &self.0
    }
}

/// A wrapper that pools strings to reduce archive size: any string field
/// serialized through it is stored once per distinct content, and each
/// occurrence archives as a fixed-size reference record.
#[derive(Debug)]
pub struct Intern;

/// Relies on `String::from_utf8`: it succeeds exactly on input that is
/// valid UTF-8, and the returned string is the one whose encoding is that
/// input — the same relation vstd states for `str::from_utf8_unchecked`.
#[verifier::external_body]
fn string_from_utf8(bytes: Vec<u8>) -> (r: Option<String>)
    ensures
        r is Some <==> valid_utf8(bytes@),
        r matches Some(s) ==> encode_utf8(s@) == bytes@,
{
    String::from_utf8(bytes).ok()
}

/// Strings with equal UTF-8 encodings are equal: decoding inverts
/// encoding, so an archive round trip reproduces each string exactly.
pub proof fn lemma_utf8_encoding_injective(s1: Seq<char>, s2: Seq<char>)
    requires
        encode_utf8(s1) == encode_utf8(s2),
    ensures
        s1 == s2,
{
    encode_utf8_decode_utf8(s1);
    encode_utf8_decode_utf8(s2);
}

impl Intern {
    /// Serializes a string field with interning: looks its UTF-8 bytes up
    /// in the session registry, writes them only if this content was not
    /// written before, and returns the resolver holding the position and
    /// length of the single stored copy.
    pub fn serialize_with(field: &InternedRkyvString, serializer: &mut InternAdapter) -> (r:
        Result<InternedResolver, AdapterError>)
        requires
            old(serializer).wf(),
        ensures
            final(serializer).wf(),
            final(serializer).byte_limit() == old(serializer).byte_limit(),
            final(serializer).intern_capacity() == old(serializer).intern_capacity(),
            final(serializer).shared_map() == old(serializer).shared_map(),
            final(serializer).scratch_stack() == old(serializer).scratch_stack(),
            final(serializer).pool_view() == old(serializer).pool_view(),
            final(serializer).cache_map() == old(serializer).cache_map(),
            r is Ok <==> old(serializer).interned().contains_key(encode_utf8(field.0@)) || (old(serializer).bytes().len() + encode_utf8(field.0@).len() <= old(serializer).byte_limit() && old(serializer).interned().len() < old(serializer).intern_capacity()),
            r matches Ok(res) ==> final(serializer).interned().contains_key(encode_utf8(field.0@))
                && res.pos as int == final(serializer).interned()[encode_utf8(field.0@)] && res.len
                as int == encode_utf8(field.0@).len() && final(serializer).bytes().subrange(
                res.pos as int,
                res.pos + res.len,
            ) == encode_utf8(field.0@),
            r is Ok && old(serializer).interned().contains_key(encode_utf8(field.0@)) ==> final(serializer).bytes() == old(serializer).bytes() && final(serializer).interned() == old(serializer).interned(),
            !old(serializer).interned().contains_key(encode_utf8(field.0@)) ==> (r matches Ok(res)
                ==> final(serializer).bytes() == old(serializer).bytes() + encode_utf8(field.0@)
                    && final(serializer).interned() == old(serializer).interned().insert(
                    encode_utf8(field.0@),
                    res.pos as int,
                )),
            r matches Err(e) ==> !old(serializer).interned().contains_key(encode_utf8(field.0@))
                && final(serializer).interned() == old(serializer).interned() && match e {
                InternSerializerAdapterError::SerializerError(we) => we == WriterError::Exhausted
                    && old(serializer).bytes().len() + encode_utf8(field.0@).len() > old(serializer).byte_limit(),
                InternSerializerAdapterError::InternError(ie) => ie == InternError::RegistryFull
                    && old(serializer).interned().len() >= old(serializer).intern_capacity(),
                InternSerializerAdapterError::DeserializerError(_) => false,
            },
    {
        let bytes = field.0.as_str().as_bytes_vec();
        let p = match serializer.serialize_interned(bytes.as_slice()) {
            Ok(p) => p,
            Err(e) => {
                return Err(e);
            },
        };
        proof {
            serializer.lemma_wf_bounds();
        }
        Ok(InternedResolver { pos: p as u32, len: bytes.len() as u32 })
    }

    /// Stamps the reference record for an already serialized string out at
    /// the current position and returns the record's position.
    pub fn resolve_with(resolver: InternedResolver, serializer: &mut InternAdapter) -> (r: Result<
        usize,
        AdapterError,
    >)
        requires
            old(serializer).wf(),
        ensures
            final(serializer).wf(),
            final(serializer).byte_limit() == old(serializer).byte_limit(),
            final(serializer).interned() == old(serializer).interned(),
            final(serializer).intern_capacity() == old(serializer).intern_capacity(),
            final(serializer).shared_map() == old(serializer).shared_map(),
            final(serializer).scratch_stack() == old(serializer).scratch_stack(),
            final(serializer).pool_view() == old(serializer).pool_view(),
            final(serializer).cache_map() == old(serializer).cache_map(),
            r is Ok <==> old(serializer).bytes().len() + REF_RECORD_BYTES as int <= old(serializer).byte_limit(),
            r matches Ok(q) ==> q == old(serializer).bytes().len() && final(serializer).bytes()
                == old(serializer).bytes() + ref_record_bytes(resolver.pos, resolver.len)
                && record_at(final(serializer).bytes(), q as int) == Some(
                ArchivedRkyvInternedString { pos: resolver.pos, len: resolver.len },
            ),
            r is Err ==> final(serializer).bytes() == old(serializer).bytes() && r == Err::<usize,
                AdapterError,
            >(InternSerializerAdapterError::SerializerError(WriterError::Exhausted)),
    {
        serializer.resolve_interned(resolver.pos as usize, resolver.len as usize)
    }

    /// Reconstructs the string a reference record points at: resolves the
    /// referenced bytes against the buffer and decodes them, failing with
    /// a typed error when the record lies outside the buffer or the bytes
    /// are not valid text.
    pub fn deserialize_with(field: &ArchivedRkyvInternedString, buf: &Vec<u8>) -> (r: Result<
        InternedRkyvString,
        ReaderError,
    >)
        ensures
            r is Ok <==> (resolve_record(buf@, *field) matches Some(payload) && valid_utf8(
                payload,
            )),
            r matches Ok(s) ==> resolve_record(buf@, *field) == Some(encode_utf8(s.0@)),
            r matches Err(e) ==> match e {
                ReaderError::OutOfBounds => resolve_record(buf@, *field) is None,
                ReaderError::InvalidContent => resolve_record(buf@, *field) matches Some(payload)
                    && !valid_utf8(payload),
                ReaderError::TruncatedRecord => false,
            },
    {
        let payload = match field.resolve(buf) {
            Ok(p) => p,
            Err(e) => {
                return Err(e);
            },
        };
        match string_from_utf8(payload) {
            Some(s) => Ok(InternedRkyvString(s)),
            None => Err(ReaderError::InvalidContent),
        }
    }
}

} // verus!
