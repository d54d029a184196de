//! The serializer composition adapter: one object holding the base
//! serializer, the read-side shared-value cache, and the intern registry,
//! presenting every capability of the three by delegation to exactly one
//! of them. Only the error channel is unified: each delegated call maps
//! its layer's error into the matching tag of the adapter's error type.

use vstd::prelude::*;
use crate::errors::{AdapterError, InternSerializerAdapterError, WriterError, ReaderError,
    InternError};
use crate::registry::{InternSerializeMap, InternSerializeRegistry};
use crate::serializer::{BufSerializer, pad_to_align};
use crate::shared::SharedDeserializeCache;
use crate::wire::{ArchivedRkyvInternedString, resolve_record};

verus! {

/// Every interned content lies, as recorded, inside the buffer: the
/// registry's position points at the single physical copy of its content.
pub open spec fn interned_covers(bytes: Seq<u8>, reg: Map<Seq<u8>, int>) -> bool {
    forall|k: Seq<u8>| #[trigger]
        reg.contains_key(k) ==> 0 <= reg[k] && reg[k] + k.len() <= bytes.len() && bytes.subrange(
            reg[k],
            reg[k] + k.len(),
        ) == k
}

/// Appending to the buffer never unseats a recorded copy.
pub proof fn lemma_covers_append(bytes: Seq<u8>, ext: Seq<u8>, reg: Map<Seq<u8>, int>)
    requires
        interned_covers(bytes, reg),
    ensures
        interned_covers(bytes + ext, reg),
{
    assert forall|k: Seq<u8>| #[trigger] (reg.contains_key(k)) implies 0 <= reg[k] && reg[k]
        + k.len() <= (bytes + ext).len() && (bytes + ext).subrange(reg[k], reg[k] + k.len())
        == k by {
        assert((bytes + ext).subrange(reg[k], reg[k] + k.len()) =~= bytes.subrange(
            reg[k],
            reg[k] + k.len(),
        ));
    }
}

/// A basic adapter that adds interning to a compound serializer: the base
/// serializer, the read-side shared-value cache, and the intern registry,
/// composed behind one interface.
#[derive(Debug)]
pub struct InternAdapter {
    serializer: BufSerializer,
    deserializer: SharedDeserializeCache,
    intern_registry: InternSerializeMap,
}

impl InternAdapter {
    /// The bytes written so far.
    pub closed spec fn bytes(self) -> Seq<u8> {
        self.serializer.bytes()
    }

    /// The byte limit of the underlying serializer.
    pub closed spec fn byte_limit(self) -> int {
        self.serializer.byte_limit()
    }

    /// The write-time shared-pointer registry of the underlying
    /// serializer.
    pub closed spec fn shared_map(self) -> Map<int, int> {
        self.serializer.shared_map()
    }

    /// The scratch stack of the underlying serializer.
    pub closed spec fn scratch_stack(self) -> Seq<(usize, usize)> {
        self.serializer.scratch_stack()
    }

    /// The pool of payloads the read-side cache has materialized.
    pub closed spec fn pool_view(self) -> Seq<Seq<u8>> {
        self.deserializer.pool_view()
    }

    /// The read-side cache from source position to pool entry.
    pub closed spec fn cache_map(self) -> Map<int, int> {
        self.deserializer.cache_map()
    }

    /// Well-formed: all three components are, and every interned content
    /// lies at its recorded position in the buffer.
    pub closed spec fn wf(self) -> bool {
        &&& self.serializer.wf()
        &&& self.deserializer.wf()
        &&& self.intern_registry.intern_wf()
        &&& interned_covers(self.serializer.bytes(), self.intern_registry.interned())
    }

    /// Bounds that well-formedness keeps: the buffer stays under its
    /// limit, which itself keeps every position within a record's 32-bit
    /// offset, and every interned content lies at its recorded position.
    pub proof fn lemma_wf_bounds(self)
        requires
            self.wf(),
        ensures
            self.bytes().len() <= self.byte_limit(),
            self.byte_limit() <= u32::MAX,
            interned_covers(self.bytes(), self.interned()),
    {
        self.serializer.lemma_wf_bounds();
    }

    /// Constructs a new intern serializer adapter from the given
    /// serializer, shared-value cache and intern registry.
    pub fn new(serializer: BufSerializer, deserializer: SharedDeserializeCache,
        intern_registry: InternSerializeMap) -> (r: Self)
        ensures
            r.bytes() == serializer.bytes(),
            r.byte_limit() == serializer.byte_limit(),
            r.shared_map() == serializer.shared_map(),
            r.scratch_stack() == serializer.scratch_stack(),
            r.pool_view() == deserializer.pool_view(),
            r.cache_map() == deserializer.cache_map(),
            r.interned() == intern_registry.interned(),
            r.intern_capacity() == intern_registry.intern_capacity(),
            serializer.wf() && deserializer.wf() && intern_registry.intern_wf()
                && interned_covers(serializer.bytes(), intern_registry.interned()) ==> r.wf(),
    {
        InternAdapter { serializer, deserializer, intern_registry }
    }

    /// Consumes the adapter and returns the components.
    pub fn into_components(self) -> (r: (BufSerializer, SharedDeserializeCache,
        InternSerializeMap))
        ensures
            r.0.bytes() == self.bytes(),
            r.0.byte_limit() == self.byte_limit(),
            r.1.pool_view() == self.pool_view(),
            r.1.cache_map() == self.cache_map(),
            r.2.interned() == self.interned(),
            r.2.intern_capacity() == self.intern_capacity(),
            self.wf() ==> r.0.wf() && r.1.wf() && r.2.intern_wf(),
    {
        (self.serializer, self.deserializer, self.intern_registry)
    }

    /// Consumes the adapter and returns the underlying serializer.
    pub fn into_serializer(self) -> (r: BufSerializer)
        ensures
            r.bytes() == self.bytes(),
            r.byte_limit() == self.byte_limit(),
            self.wf() ==> r.wf(),
    {
        self.serializer
    }

    /// Consumes the adapter and returns the underlying shared-value cache.
    pub fn into_deserializer(self) -> (r: SharedDeserializeCache)
        ensures
            r.pool_view() == self.pool_view(),
            r.cache_map() == self.cache_map(),
            self.wf() ==> r.wf(),
    {
        self.deserializer
    }

    /// The current write position of the underlying serializer.
    pub fn pos(&self) -> (r: usize)
        ensures
            r == self.bytes().len(),
    {
        self.serializer.pos()
    }

    /// Appends bytes through the underlying serializer.
    pub fn write(&mut self, bytes: &[u8]) -> (r: Result<(), AdapterError>)
        requires
            old(self).wf(),
        ensures
            final(self).wf(),
            final(self).byte_limit() == old(self).byte_limit(),
            final(self).interned() == old(self).interned(),
            final(self).intern_capacity() == old(self).intern_capacity(),
            final(self).shared_map() == old(self).shared_map(),
            final(self).scratch_stack() == old(self).scratch_stack(),
            final(self).pool_view() == old(self).pool_view(),
            final(self).cache_map() == old(self).cache_map(),
            r is Ok <==> old(self).bytes().len() + bytes@.len() <= old(self).byte_limit(),
            r is Ok ==> final(self).bytes() == old(self).bytes() + bytes@,
            r is Err ==> final(self).bytes() == old(self).bytes() && r == Err::<(),
                AdapterError,
            >(InternSerializerAdapterError::SerializerError(WriterError::Exhausted)),
    {
        let result = self.serializer.write(bytes);
        proof {
            if result is Ok {
                lemma_covers_append(
                    old(self).serializer.bytes(),
                    bytes@,
                    self.intern_registry.interned(),
                );
            }
        }
        match result {
            Ok(()) => Ok(()),
            Err(e) => Err(InternSerializerAdapterError::SerializerError(e)),
        }
    }

    /// Appends zero padding through the underlying serializer.
    pub fn pad(&mut self, padding: usize) -> (r: Result<(), AdapterError>)
        requires
            old(self).wf(),
        ensures
            final(self).wf(),
            final(self).byte_limit() == old(self).byte_limit(),
            final(self).interned() == old(self).interned(),
            final(self).intern_capacity() == old(self).intern_capacity(),
            final(self).shared_map() == old(self).shared_map(),
            final(self).scratch_stack() == old(self).scratch_stack(),
            final(self).pool_view() == old(self).pool_view(),
            final(self).cache_map() == old(self).cache_map(),
            r is Ok <==> old(self).bytes().len() + padding <= old(self).byte_limit(),
            r is Ok ==> final(self).bytes() == old(self).bytes() + Seq::new(
                padding as nat,
                |i: int| 0u8,
            ),
            r is Err ==> final(self).bytes() == old(self).bytes() && r == Err::<(),
                AdapterError,
            >(InternSerializerAdapterError::SerializerError(WriterError::Exhausted)),
    {
        let result = self.serializer.pad(padding);
        proof {
            if result is Ok {
                lemma_covers_append(
                    old(self).serializer.bytes(),
                    Seq::new(padding as nat, |i: int| 0u8),
                    self.intern_registry.interned(),
                );
            }
        }
        match result {
            Ok(()) => Ok(()),
            Err(e) => Err(InternSerializerAdapterError::SerializerError(e)),
        }
    }

    /// Aligns the write position through the underlying serializer.
    pub fn align(&mut self, align: usize) -> (r: Result<usize, AdapterError>)
        requires
            old(self).wf(),
            align >= 1,
        ensures
            final(self).wf(),
            final(self).byte_limit() == old(self).byte_limit(),
            final(self).interned() == old(self).interned(),
            final(self).intern_capacity() == old(self).intern_capacity(),
            final(self).shared_map() == old(self).shared_map(),
            final(self).scratch_stack() == old(self).scratch_stack(),
            final(self).pool_view() == old(self).pool_view(),
            final(self).cache_map() == old(self).cache_map(),
            r is Ok <==> old(self).bytes().len() + pad_to_align(
                old(self).bytes().len() as int,
                align as int,
            ) <= old(self).byte_limit(),
            r matches Ok(p) ==> p == final(self).bytes().len() && p as int % align as int == 0
                && final(self).bytes() == old(self).bytes() + Seq::new(
                pad_to_align(old(self).bytes().len() as int, align as int) as nat,
                |i: int| 0u8,
            ),
            r is Err ==> final(self).bytes() == old(self).bytes() && r == Err::<usize,
                AdapterError,
            >(InternSerializerAdapterError::SerializerError(WriterError::Exhausted)),
    {
        let result = self.serializer.align(align);
        proof {
            if result is Ok {
                lemma_covers_append(
                    old(self).serializer.bytes(),
                    Seq::new(
                        pad_to_align(old(self).serializer.bytes().len() as int, align as int) as nat,
                        |i: int| 0u8,
                    ),
                    self.intern_registry.interned(),
                );
            }
        }
        match result {
            Ok(p) => Ok(p),
            Err(e) => Err(InternSerializerAdapterError::SerializerError(e)),
        }
    }

    /// Pushes a scratch request through the underlying serializer.
    pub fn push_scratch(&mut self, size: usize, align: usize) -> (r: Result<(), AdapterError>)
        requires
            old(self).wf(),
        ensures
            final(self).wf(),
            final(self).bytes() == old(self).bytes(),
            final(self).byte_limit() == old(self).byte_limit(),
            final(self).interned() == old(self).interned(),
            final(self).intern_capacity() == old(self).intern_capacity(),
            final(self).shared_map() == old(self).shared_map(),
            final(self).pool_view() == old(self).pool_view(),
            final(self).cache_map() == old(self).cache_map(),
            r is Ok,
            final(self).scratch_stack() == old(self).scratch_stack().push((size, align)),
    {
        match self.serializer.push_scratch(size, align) {
            Ok(()) => Ok(()),
            Err(e) => Err(InternSerializerAdapterError::SerializerError(e)),
        }
    }

    /// Releases the most recent scratch request through the underlying
    /// serializer.
    pub fn pop_scratch(&mut self, size: usize, align: usize) -> (r: Result<(), AdapterError>)
        requires
            old(self).wf(),
        ensures
            final(self).wf(),
            final(self).bytes() == old(self).bytes(),
            final(self).byte_limit() == old(self).byte_limit(),
            final(self).interned() == old(self).interned(),
            final(self).intern_capacity() == old(self).intern_capacity(),
            final(self).shared_map() == old(self).shared_map(),
            final(self).pool_view() == old(self).pool_view(),
            final(self).cache_map() == old(self).cache_map(),
            r is Ok <==> old(self).scratch_stack().len() > 0 && old(self).scratch_stack().last()
                == (size, align),
            r is Ok ==> final(self).scratch_stack() == old(self).scratch_stack().drop_last(),
            r is Err ==> final(self).scratch_stack() == old(self).scratch_stack() && r == Err::<(),
                AdapterError,
            >(InternSerializerAdapterError::SerializerError(WriterError::ScratchMismatch)),
    {
        match self.serializer.pop_scratch(size, align) {
            Ok(()) => Ok(()),
            Err(e) => Err(InternSerializerAdapterError::SerializerError(e)),
        }
    }

    /// Looks an address up in the write-time shared-pointer registry.
    pub fn get_shared_ptr(&self, addr: usize) -> (r: Option<usize>)
        requires
            self.wf(),
        ensures
            match r {
                Some(p) => self.shared_map().contains_key(addr as int) && p as int
                    == self.shared_map()[addr as int],
                None => !self.shared_map().contains_key(addr as int),
            },
    {
        self.serializer.get_shared_ptr(addr)
    }

    /// Records a shared address through the underlying serializer.
    pub fn add_shared_ptr(&mut self, addr: usize, pos: usize) -> (r: Result<(), AdapterError>)
        requires
            old(self).wf(),
            !old(self).shared_map().contains_key(addr as int),
        ensures
            final(self).wf(),
            final(self).bytes() == old(self).bytes(),
            final(self).byte_limit() == old(self).byte_limit(),
            final(self).interned() == old(self).interned(),
            final(self).intern_capacity() == old(self).intern_capacity(),
            final(self).scratch_stack() == old(self).scratch_stack(),
            final(self).pool_view() == old(self).pool_view(),
            final(self).cache_map() == old(self).cache_map(),
            r is Ok,
            final(self).shared_map() == old(self).shared_map().insert(addr as int, pos as int),
    {
        match self.serializer.add_shared_ptr(addr, pos) {
            Ok(()) => Ok(()),
            Err(e) => Err(InternSerializerAdapterError::SerializerError(e)),
        }
    }

    /// Resolves an archived record through the read-side shared-value
    /// cache, materializing the payload at most once per source position.
    pub fn deserialize_shared(&mut self, buf: &Vec<u8>, rec: &ArchivedRkyvInternedString) -> (r:
        Result<usize, AdapterError>)
        requires
            old(self).wf(),
        ensures
            final(self).wf(),
            final(self).bytes() == old(self).bytes(),
            final(self).byte_limit() == old(self).byte_limit(),
            final(self).interned() == old(self).interned(),
            final(self).intern_capacity() == old(self).intern_capacity(),
            final(self).shared_map() == old(self).shared_map(),
            final(self).scratch_stack() == old(self).scratch_stack(),
            old(self).cache_map().contains_key(rec.pos as int) ==> (r matches Ok(h) && h as int
                == old(self).cache_map()[rec.pos as int] && final(self).pool_view() == old(self).pool_view() && final(self).cache_map() == old(self).cache_map()),
            !old(self).cache_map().contains_key(rec.pos as int) ==> match r {
                Ok(h) => resolve_record(buf@, *rec) matches Some(payload)
                    && h == old(self).pool_view().len() && final(self).pool_view() == old(self).pool_view().push(payload) && final(self).cache_map() == old(self).cache_map().insert(rec.pos as int, h as int),
                Err(e) => resolve_record(buf@, *rec) is None && (e matches
                    InternSerializerAdapterError::DeserializerError(re) && re
                    == ReaderError::OutOfBounds) && final(self).pool_view() == old(
                    self,
                ).pool_view() && final(self).cache_map() == old(self).cache_map(),
            },
            r matches Ok(h) ==> h < final(self).pool_view().len(),
    {
        match self.deserializer.deserialize_shared(buf, rec) {
            Ok(h) => Ok(h),
            Err(e) => Err(InternSerializerAdapterError::DeserializerError(e)),
        }
    }

    /// The payload held by a pool entry that `deserialize_shared` handed
    /// out.
    pub fn get_pooled(&self, handle: usize) -> (r: &Vec<u8>)
        requires
            self.wf(),
            handle < self.pool_view().len(),
        ensures
            r@ == self.pool_view()[handle as int],
    {
        self.deserializer.get_pooled(handle)
    }

    /// Serializes one payload with interning: content seen before in this
    /// session is not written again, only its first position is returned;
    /// new content is appended at the current position and recorded in the
    /// registry. Either way the returned position holds the payload's
    /// single physical copy.
    pub fn serialize_interned(&mut self, value: &[u8]) -> (r: Result<usize, AdapterError>)
        requires
            old(self).wf(),
        ensures
            final(self).wf(),
            final(self).byte_limit() == old(self).byte_limit(),
            final(self).intern_capacity() == old(self).intern_capacity(),
            final(self).shared_map() == old(self).shared_map(),
            final(self).scratch_stack() == old(self).scratch_stack(),
            final(self).pool_view() == old(self).pool_view(),
            final(self).cache_map() == old(self).cache_map(),
            r is Ok <==> old(self).interned().contains_key(value@) || (old(self).bytes().len()
                + value@.len() <= old(self).byte_limit() && old(self).interned().len() < old(self).intern_capacity()),
            old(self).interned().contains_key(value@) ==> (r matches Ok(p) && p as int == old(self).interned()[value@] && final(self).bytes() == old(self).bytes() && final(self).interned() == old(self).interned()),
            !old(self).interned().contains_key(value@) && r is Ok ==> (r matches Ok(p) && p == old(self).bytes().len() && final(self).bytes() == old(self).bytes() + value@ && final(self).interned() == old(self).interned().insert(value@, p as int)),
            r matches Ok(p) ==> final(self).interned().contains_key(value@) && p as int == final(self).interned()[value@] && p + value@.len() <= final(self).bytes().len() && final(self).bytes().subrange(p as int, p + value@.len()) == value@,
            r matches Err(e) ==> !old(self).interned().contains_key(value@) && final(self).interned() == old(self).interned() && match e {
                InternSerializerAdapterError::SerializerError(we) => we == WriterError::Exhausted
                    && old(self).bytes().len() + value@.len() > old(self).byte_limit() && final(self).bytes() == old(self).bytes(),
                InternSerializerAdapterError::InternError(ie) => ie == InternError::RegistryFull
                    && old(self).bytes().len() + value@.len() <= old(self).byte_limit() && old(self).interned().len() >= old(self).intern_capacity() && final(self).bytes() == old(self).bytes() + value@,
                InternSerializerAdapterError::DeserializerError(_) => false,
            },
    {
        if let Some(p) = self.intern_registry.get_interned(value) {
            proof {
                assert(self.bytes().subrange(p as int, p + value@.len()) == value@);
            }
            return Ok(p);
        }
        let pos = self.serializer.pos();
        let write_result = self.serializer.write(value);
        proof {
            if write_result is Ok {
                lemma_covers_append(
                    old(self).serializer.bytes(),
                    value@,
                    self.intern_registry.interned(),
                );
            }
        }
        if let Err(e) = write_result {
            return Err(InternSerializerAdapterError::SerializerError(e));
        }
        let owned = vstd::slice::slice_to_vec(value);
        let add_result = self.intern_registry.add_interned(owned, pos);
        if let Err(e) = add_result {
            return Err(InternSerializerAdapterError::InternError(e));
        }
        proof {
            assert forall|k: Seq<u8>| #[trigger]
                (self.intern_registry.interned().contains_key(k)) implies 0
                <= self.intern_registry.interned()[k] && self.intern_registry.interned()[k]
                + k.len() <= self.serializer.bytes().len() && self.serializer.bytes().subrange(
                self.intern_registry.interned()[k],
                self.intern_registry.interned()[k] + k.len(),
            ) == k by {
                if k == value@ {
                    assert(self.serializer.bytes().subrange(pos as int, pos + value@.len())
                        =~= value@);
                } else {
                    assert(old(self).intern_registry.interned().contains_key(k));
                }
            }
        }
        Ok(pos)
    }
}

impl Default for InternAdapter {
    /// An adapter over fresh components: an empty buffer under the
    /// largest addressable limit, an empty cache, and an unbounded
    /// registry.
    fn default() -> (r: Self)
        ensures
            r.wf(),
            r.bytes() =~= Seq::<u8>::empty(),
            r.byte_limit() == u32::MAX,
            r.shared_map() =~= Map::<int, int>::empty(),
            r.scratch_stack() =~= Seq::<(usize, usize)>::empty(),
            r.pool_view() =~= Seq::<Seq<u8>>::empty(),
            r.cache_map() =~= Map::<int, int>::empty(),
            r.interned() =~= Map::<Seq<u8>, int>::empty(),
            r.intern_capacity() == usize::MAX,
    {
        InternAdapter::new(
            BufSerializer::default(),
            SharedDeserializeCache::default(),
            InternSerializeMap::default(),
        )
    }
}

impl InternSerializeRegistry for InternAdapter {
    type Error = AdapterError;

    /// The mapping from interned content to its recorded position.
    closed spec fn interned(&self) -> Map<Seq<u8>, int> {
        self.intern_registry.interned()
    }

    /// The greatest number of entries the registry accepts.
    closed spec fn intern_capacity(&self) -> int {
        self.intern_registry.intern_capacity()
    }

    /// The registry's internal invariant.
    closed spec fn intern_wf(&self) -> bool {
        self.intern_registry.intern_wf()
    }

    fn get_interned(&self, value: &[u8]) -> (r: Option<usize>) {
        self.intern_registry.get_interned(value)
    }

    fn add_interned(&mut self, value: Vec<u8>, pos: usize) -> (r: Result<(), AdapterError>) {
        match self.intern_registry.add_interned(value, pos) {
            Ok(()) => Ok(()),
            Err(e) => Err(InternSerializerAdapterError::InternError(e)),
        }
    }
}

} // verus!
