//! Deserialize-time shared-value resolution: a cache keyed by the source
//! position of an archived value. The first time a position is resolved,
//! its payload is materialized out of the buffer into an owned pool entry;
//! every later resolution of the same position returns the same entry
//! without re-materializing.

use vstd::prelude::*;
use crate::errors::ReaderError;
use crate::serializer::{addr_entries_view, addr_entries_unique, lemma_addr_entries_view_member,
    lemma_addr_entries_view_at};
use crate::wire::{ArchivedRkyvInternedString, resolve_record};

verus! {

/// The read-time cache of shared values: an owned pool of materialized
/// payloads and an index from source position to pool entry.
#[derive(Debug)]
pub struct SharedDeserializeCache {
    pool: Vec<Vec<u8>>,
    index: Vec<(usize, usize)>,
}

impl Default for SharedDeserializeCache {
    /// An empty cache: nothing materialized yet.
    fn default() -> (r: Self)
        ensures
            r.wf(),
            r.pool_view() =~= Seq::<Seq<u8>>::empty(),
            r.cache_map() =~= Map::<int, int>::empty(),
    {
        SharedDeserializeCache::new()
    }
}

impl SharedDeserializeCache {
    /// The payloads materialized so far, in materialization order.
    pub closed spec fn pool_view(self) -> Seq<Seq<u8>> {
        self.pool@.map_values(|v: Vec<u8>| v@)
    }

    /// The index from source position to the pool entry materialized for
    /// it.
    pub closed spec fn cache_map(self) -> Map<int, int> {
        addr_entries_view(self.index@)
    }

    /// Well-formed: each source position is cached at most once, and every
    /// cached entry points into the pool.
    pub closed spec fn wf(self) -> bool {
        &&& addr_entries_unique(self.index@)
        &&& forall|i: int|
            0 <= i < self.index@.len() ==> (#[trigger] self.index@[i]).1 < self.pool@.len()
    }

    /// Creates an empty cache.
    pub fn new() -> (r: Self)
        ensures
            r.wf(),
            r.pool_view() =~= Seq::<Seq<u8>>::empty(),
            r.cache_map() =~= Map::<int, int>::empty(),
    {
        SharedDeserializeCache { pool: Vec::new(), index: Vec::new() }
    }

    /// The payload held by a pool entry handed out earlier.
    pub fn get_pooled(&self, handle: usize) -> (r: &Vec<u8>)
        requires
            self.wf(),
            handle < self.pool_view().len(),
        ensures
            r@ == self.pool_view()[handle as int],
    {
        &self.pool[handle]
    }

    /// Looks a source position up in the cache.
    pub fn get_shared_ptr(&self, addr: usize) -> (r: Option<usize>)
        requires
            self.wf(),
        ensures
            match r {
                Some(h) => self.cache_map().contains_key(addr as int) && h as int
                    == self.cache_map()[addr as int],
                None => !self.cache_map().contains_key(addr as int),
            },
    {
        let mut i: usize = 0;
        while i < self.index.len()
            invariant
                i <= self.index@.len(),
                self.wf(),
                forall|j: int| 0 <= j < i ==> (#[trigger] self.index@[j]).0 != addr,
            decreases self.index@.len() - i,
        {
            if self.index[i].0 == addr {
                proof {
                    lemma_addr_entries_view_at(self.index@, i as int);
                }
                return Some(self.index[i].1);
            }
            i = i + 1;
        }
        proof {
            if self.cache_map().contains_key(addr as int) {
                lemma_addr_entries_view_member(self.index@, addr as int);
            }
        }
        None
    }

    /// Records the pool entry materialized for a source position not yet
    /// cached.
    pub fn add_shared_ptr(&mut self, addr: usize, handle: usize) -> (r: Result<(), ReaderError>)
        requires
            old(self).wf(),
            !old(self).cache_map().contains_key(addr as int),
            handle < old(self).pool_view().len(),
        ensures
            final(self).wf(),
            final(self).pool_view() == old(self).pool_view(),
            r is Ok,
            final(self).cache_map() == old(self).cache_map().insert(addr as int, handle as int),
    {
        self.index.push((addr, handle));
        proof {
            assert(self.index@.drop_last() =~= old(self).index@);
            assert forall|i: int, j: int|
                0 <= i < j < self.index@.len() implies (#[trigger] self.index@[i]).0 != (
            #[trigger] self.index@[j]).0 by {
                if j == self.index@.len() - 1 {
                    lemma_addr_entries_view_at(old(self).index@, i);
                }
            }
        }
        Ok(())
    }

    /// Resolves an archived record against the buffer through the cache:
    /// on a position seen before, returns the pool entry cached for it
    /// without touching the buffer; on a new position, materializes the
    /// referenced payload into the pool, caches it under the record's
    /// position, and returns the new entry.
    pub fn deserialize_shared(&mut self, buf: &Vec<u8>, rec: &ArchivedRkyvInternedString) -> (r:
        Result<usize, ReaderError>)
        requires
            old(self).wf(),
        ensures
            final(self).wf(),
            old(self).cache_map().contains_key(rec.pos as int) ==> (r matches Ok(h) && h as int
                == old(self).cache_map()[rec.pos as int] && final(self).pool_view() == old(
                self,
            ).pool_view() && final(self).cache_map() == old(self).cache_map()),
            !old(self).cache_map().contains_key(rec.pos as int) ==> match r {
                Ok(h) => resolve_record(buf@, *rec) matches Some(payload)
                    && h == old(self).pool_view().len() && final(self).pool_view() == old(
                    self,
                ).pool_view().push(payload) && final(self).cache_map() == old(
                    self,
                ).cache_map().insert(rec.pos as int, h as int),
                Err(e) => resolve_record(buf@, *rec) is None && e == ReaderError::OutOfBounds
                    && final(self).pool_view() == old(self).pool_view() && final(self).cache_map()
                    == old(self).cache_map(),
            },
            r matches Ok(h) ==> h < final(self).pool_view().len(),
    {
        if let Some(handle) = self.get_shared_ptr(rec.pos as usize) {
            proof {
                lemma_addr_entries_view_member(self.index@, rec.pos as int);
                let i = choose|i: int|
                    0 <= i < self.index@.len() && (#[trigger] self.index@[i]).0 as int
                        == rec.pos as int;
                lemma_addr_entries_view_at(self.index@, i);
            }
            return Ok(handle);
        }
        let payload = rec.resolve(buf)?;
        let handle = self.pool.len();
        self.pool.push(payload);
        proof {
            assert(self.pool_view() =~= old(self).pool_view().push(
                resolve_record(buf@, *rec).unwrap(),
            ));
        }
        self.add_shared_ptr(rec.pos as usize, handle)?;
        Ok(handle)
    }
}

} // verus!
