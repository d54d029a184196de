//! The base serializer: exclusive owner of the append-only archive buffer,
//! with position query, byte writing, padding and alignment, a scratch
//! stack, and the write-time shared-pointer registry. Bytes once written
//! are never mutated; every operation only appends.

use vstd::prelude::*;
use crate::errors::WriterError;

verus! {

/// The map an address-keyed association list holds: each pair's first
/// component maps to its second.
pub open spec fn addr_entries_view(entries: Seq<(usize, usize)>) -> Map<int, int>
    decreases entries.len(),
{
    if entries.len() == 0 {
        Map::empty()
    } else {
        addr_entries_view(entries.drop_last()).insert(
            entries.last().0 as int,
            entries.last().1 as int,
        )
    }
}

/// No two pairs of the list share a first component.
pub open spec fn addr_entries_unique(entries: Seq<(usize, usize)>) -> bool {
    forall|i: int, j: int|
        0 <= i < j < entries.len() ==> (#[trigger] entries[i]).0 != (#[trigger] entries[j]).0
}

/// A key the view contains stands in some pair of the list.
pub proof fn lemma_addr_entries_view_member(entries: Seq<(usize, usize)>, k: int)
    requires
        addr_entries_view(entries).contains_key(k),
    ensures
        exists|i: int| 0 <= i < entries.len() && (#[trigger] entries[i]).0 as int == k,
    decreases entries.len(),
{
    if entries.len() > 0 {
        if k == entries.last().0 as int {
            assert((entries[entries.len() - 1]).0 as int == k);
        } else {
            lemma_addr_entries_view_member(entries.drop_last(), k);
            let i = choose|i: int|
                0 <= i < entries.drop_last().len() && (#[trigger] entries.drop_last()[i]).0 as int
                    == k;
            assert(entries.drop_last()[i] == entries[i]);
            assert((entries[i]).0 as int == k);
        }
    }
}

/// Each pair of the list stands in the view; under uniqueness its key maps
/// to its value.
pub proof fn lemma_addr_entries_view_at(entries: Seq<(usize, usize)>, i: int)
    requires
        0 <= i < entries.len(),
    ensures
        addr_entries_view(entries).contains_key(entries[i].0 as int),
        addr_entries_unique(entries) ==> addr_entries_view(entries)[entries[i].0 as int]
            == entries[i].1 as int,
    decreases entries.len(),
{
    if i == entries.len() - 1 {
    } else {
        lemma_addr_entries_view_at(entries.drop_last(), i);
        assert(entries.drop_last()[i] == entries[i]);
        if addr_entries_unique(entries) {
            assert(entries[i].0 != entries.last().0);
        }
    }
}

/// A serializer that appends into a growable byte buffer, refusing writes
/// past a fixed byte limit chosen at construction.
#[derive(Debug)]
pub struct BufSerializer {
    buf: Vec<u8>,
    limit: usize,
    shared: Vec<(usize, usize)>,
    scratch: Vec<(usize, usize)>,
}

impl BufSerializer {
    /// The bytes written so far.
    pub closed spec fn bytes(self) -> Seq<u8> {
        self.buf@
    }

    /// The byte limit this serializer was created with.
    pub closed spec fn byte_limit(self) -> int {
        self.limit as int
    }

    /// The write-time shared-pointer registry: source address to the
    /// position where the shared value's bytes were written.
    pub closed spec fn shared_map(self) -> Map<int, int> {
        addr_entries_view(self.shared@)
    }

    /// The stack of outstanding scratch requests, as (size, alignment)
    /// pairs.
    pub closed spec fn scratch_stack(self) -> Seq<(usize, usize)> {
        self.scratch@
    }

    /// Well-formed: the limit keeps every position representable in a
    /// record's 32-bit offset, the buffer is within it, and the shared
    /// registry holds each address once.
    pub closed spec fn wf(self) -> bool {
        &&& self.limit <= u32::MAX
        &&& self.buf@.len() <= self.limit
        &&& addr_entries_unique(self.shared@)
    }

    /// Bounds that well-formedness keeps: the buffer stays under its
    /// limit, which itself keeps every position within a record's 32-bit
    /// offset.
    pub proof fn lemma_wf_bounds(self)
        requires
            self.wf(),
        ensures
            self.bytes().len() <= self.byte_limit(),
            self.byte_limit() <= u32::MAX,
    {
    }

    /// Creates an empty serializer that will refuse to grow the buffer
    /// past `limit` bytes.
    pub fn new(limit: usize) -> (r: Self)
        requires
            limit <= u32::MAX as usize,
        ensures
            r.wf(),
            r.bytes() =~= Seq::<u8>::empty(),
            r.byte_limit() == limit,
            r.shared_map() =~= Map::<int, int>::empty(),
            r.scratch_stack() =~= Seq::<(usize, usize)>::empty(),
    {
        BufSerializer { buf: Vec::new(), limit, shared: Vec::new(), scratch: Vec::new() }
    }

    /// Consumes the serializer and returns the buffer it filled.
    pub fn into_inner(self) -> (r: Vec<u8>)
        ensures
            r@ == self.bytes(),
    {
        self.buf
    }

    /// The current write position: the number of bytes written so far.
    pub fn pos(&self) -> (r: usize)
        ensures
            r == self.bytes().len(),
    {
        self.buf.len()
    }

    /// Appends the given bytes; fails, changing nothing, when they would
    /// not fit under the limit.
    pub fn write(&mut self, bytes: &[u8]) -> (r: Result<(), WriterError>)
        requires
            old(self).wf(),
        ensures
            final(self).wf(),
            final(self).byte_limit() == old(self).byte_limit(),
            final(self).shared_map() == old(self).shared_map(),
            final(self).scratch_stack() == old(self).scratch_stack(),
            r is Ok <==> old(self).bytes().len() + bytes@.len() <= old(self).byte_limit(),
            r is Ok ==> final(self).bytes() == old(self).bytes() + bytes@,
            r is Err ==> final(self).bytes() == old(self).bytes() && r == Err::<(),
                WriterError,
            >(WriterError::Exhausted),
    {
        if bytes.len() > self.limit - self.buf.len() {
            return Err(WriterError::Exhausted);
        }
        let mut i: usize = 0;
        while i < bytes.len()
            invariant
                i <= bytes@.len(),
                self.buf@ =~= old(self).buf@ + bytes@.subrange(0, i as int),
                self.limit == old(self).limit,
                self.shared@ == old(self).shared@,
                self.scratch@ == old(self).scratch@,
                old(self).buf@.len() + bytes@.len() <= self.limit,
            decreases bytes@.len() - i,
        {
            let b = bytes[i];
            self.buf.push(b);
            i = i + 1;
        }
        proof {
            assert(self.buf@ =~= old(self).buf@ + bytes@);
        }
        Ok(())
    }

    /// Appends `padding` zero bytes; fails, changing nothing, when they
    /// would not fit under the limit.
    pub fn pad(&mut self, padding: usize) -> (r: Result<(), WriterError>)
        requires
            old(self).wf(),
        ensures
            final(self).wf(),
            final(self).byte_limit() == old(self).byte_limit(),
            final(self).shared_map() == old(self).shared_map(),
            final(self).scratch_stack() == old(self).scratch_stack(),
            r is Ok <==> old(self).bytes().len() + padding <= old(self).byte_limit(),
            r is Ok ==> final(self).bytes() == old(self).bytes() + Seq::new(
                padding as nat,
                |i: int| 0u8,
            ),
            r is Err ==> final(self).bytes() == old(self).bytes() && r == Err::<(),
                WriterError,
            >(WriterError::Exhausted),
    {
        if padding > self.limit - self.buf.len() {
            return Err(WriterError::Exhausted);
        }
        let mut i: usize = 0;
        while i < padding
            invariant
                i <= padding,
                self.buf@ =~= old(self).buf@ + Seq::new(i as nat, |j: int| 0u8),
                self.limit == old(self).limit,
                self.shared@ == old(self).shared@,
                self.scratch@ == old(self).scratch@,
                old(self).buf@.len() + padding <= self.limit,
            decreases padding - i,
        {
            self.buf.push(0u8);
            proof {
                assert(self.buf@ =~= old(self).buf@ + Seq::new((i + 1) as nat, |j: int| 0u8));
            }
            i = i + 1;
        }
        Ok(())
    }

    /// Pads with zeros up to the next multiple of `align` and returns the
    /// aligned position; fails, changing nothing, when the padding would
    /// not fit under the limit.
    pub fn align(&mut self, align: usize) -> (r: Result<usize, WriterError>)
        requires
            old(self).wf(),
            align >= 1,
        ensures
            final(self).wf(),
            final(self).byte_limit() == old(self).byte_limit(),
            final(self).shared_map() == old(self).shared_map(),
            final(self).scratch_stack() == old(self).scratch_stack(),
            r is Ok <==> old(self).bytes().len() + pad_to_align(
                old(self).bytes().len() as int,
                align as int,
            ) <= old(self).byte_limit(),
            r matches Ok(p) ==> p == final(self).bytes().len() && p as int % align as int == 0
                && final(self).bytes() == old(self).bytes() + Seq::new(
                pad_to_align(old(self).bytes().len() as int, align as int) as nat,
                |i: int| 0u8,
            ),
            r is Err ==> final(self).bytes() == old(self).bytes() && r == Err::<usize,
                WriterError,
            >(WriterError::Exhausted),
    {
        let rem = self.buf.len() % align;
        let need = if rem == 0 { 0 } else { align - rem };
        assert(need as int == pad_to_align(self.buf@.len() as int, align as int));
        self.pad(need)?;
        proof {
            let p = old(self).buf@.len() as int;
            let a = align as int;
            let n = need as int;
            assert((p + n) % a == 0) by (nonlinear_arith)
                requires
                    a >= 1,
                    n == pad_to_align(p, a),
            ;
        }
        Ok(self.buf.len())
    }

    /// Looks an address up in the write-time shared-pointer registry.
    pub fn get_shared_ptr(&self, addr: usize) -> (r: Option<usize>)
        requires
            self.wf(),
        ensures
            match r {
                Some(p) => self.shared_map().contains_key(addr as int) && p as int
                    == self.shared_map()[addr as int],
                None => !self.shared_map().contains_key(addr as int),
            },
    {
        let mut i: usize = 0;
        while i < self.shared.len()
            invariant
                i <= self.shared@.len(),
                self.wf(),
                forall|j: int| 0 <= j < i ==> (#[trigger] self.shared@[j]).0 != addr,
            decreases self.shared@.len() - i,
        {
            if self.shared[i].0 == addr {
                proof {
                    lemma_addr_entries_view_at(self.shared@, i as int);
                }
                return Some(self.shared[i].1);
            }
            i = i + 1;
        }
        proof {
            if self.shared_map().contains_key(addr as int) {
                lemma_addr_entries_view_member(self.shared@, addr as int);
            }
        }
        None
    }

    /// Records the position written for a shared address not yet recorded.
    pub fn add_shared_ptr(&mut self, addr: usize, pos: usize) -> (r: Result<(), WriterError>)
        requires
            old(self).wf(),
            !old(self).shared_map().contains_key(addr as int),
        ensures
            final(self).wf(),
            final(self).byte_limit() == old(self).byte_limit(),
            final(self).bytes() == old(self).bytes(),
            final(self).scratch_stack() == old(self).scratch_stack(),
            r is Ok,
            final(self).shared_map() == old(self).shared_map().insert(addr as int, pos as int),
    {
        self.shared.push((addr, pos));
        proof {
            assert(self.shared@.drop_last() =~= old(self).shared@);
            assert forall|i: int, j: int|
                0 <= i < j < self.shared@.len() implies (#[trigger] self.shared@[i]).0 != (
            #[trigger] self.shared@[j]).0 by {
                if j == self.shared@.len() - 1 {
                    lemma_addr_entries_view_at(old(self).shared@, i);
                }
            }
        }
        Ok(())
    }

    /// Pushes a scratch request of the given size and alignment.
    pub fn push_scratch(&mut self, size: usize, align: usize) -> (r: Result<(), WriterError>)
        requires
            old(self).wf(),
        ensures
            final(self).wf(),
            final(self).byte_limit() == old(self).byte_limit(),
            final(self).bytes() == old(self).bytes(),
            final(self).shared_map() == old(self).shared_map(),
            r is Ok,
            final(self).scratch_stack() == old(self).scratch_stack().push((size, align)),
    {
        self.scratch.push((size, align));
        Ok(())
    }

    /// Releases the most recent scratch request; fails, changing nothing,
    /// when the given layout is not the one on top of the stack.
    pub fn pop_scratch(&mut self, size: usize, align: usize) -> (r: Result<(), WriterError>)
        requires
            old(self).wf(),
        ensures
            final(self).wf(),
            final(self).byte_limit() == old(self).byte_limit(),
            final(self).bytes() == old(self).bytes(),
            final(self).shared_map() == old(self).shared_map(),
            r is Ok <==> old(self).scratch_stack().len() > 0 && old(self).scratch_stack().last()
                == (size, align),
            r is Ok ==> final(self).scratch_stack() == old(self).scratch_stack().drop_last(),
            r is Err ==> final(self).scratch_stack() == old(self).scratch_stack() && r == Err::<(),
                WriterError,
            >(WriterError::ScratchMismatch),
    {
        if self.scratch.len() == 0 {
            return Err(WriterError::ScratchMismatch);
        }
        let top = self.scratch[self.scratch.len() - 1];
        if top.0 != size || top.1 != align {
            return Err(WriterError::ScratchMismatch);
        }
        self.scratch.pop();
        Ok(())
    }
}

impl Default for BufSerializer {
    /// An empty serializer with the largest limit a record's 32-bit
    /// offset can address.
    fn default() -> (r: Self)
        ensures
            r.wf(),
            r.bytes() =~= Seq::<u8>::empty(),
            r.byte_limit() == u32::MAX,
            r.shared_map() =~= Map::<int, int>::empty(),
            r.scratch_stack() =~= Seq::<(usize, usize)>::empty(),
    {
        BufSerializer::new(u32::MAX as usize)
    }
}

/// How many zero bytes bring a position up to the next multiple of the
/// alignment.
pub open spec fn pad_to_align(pos: int, align: int) -> int
    recommends
        align >= 1,
{
    if pos % align == 0 {
        0
    } else {
        align - pos % align
    }
}

} // verus!
