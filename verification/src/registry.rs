//! The intern registry: a write-time mapping from payload content to the
//! byte offset at which that content was first written. Keys are raw
//! bytes, so byte-equal values coming through different wrapper types
//! deduplicate against each other. The registry is write-once per key and
//! lives only for one serialization session.

use vstd::prelude::*;
use crate::errors::InternError;

verus! {

/// The map a content-keyed association list holds: each pair's content
/// maps to its recorded position.
pub open spec fn intern_entries_view(entries: Seq<(Vec<u8>, usize)>) -> Map<Seq<u8>, int>
    decreases entries.len(),
{
    if entries.len() == 0 {
        Map::empty()
    } else {
        intern_entries_view(entries.drop_last()).insert(
            entries.last().0@,
            entries.last().1 as int,
        )
    }
}

/// No two pairs of the list share their content.
pub open spec fn intern_entries_unique(entries: Seq<(Vec<u8>, usize)>) -> bool {
    forall|i: int, j: int|
        0 <= i < j < entries.len() ==> (#[trigger] entries[i]).0@ != (#[trigger] entries[j]).0@
}

/// A content key the view contains stands in some pair of the list.
pub proof fn lemma_intern_entries_view_member(entries: Seq<(Vec<u8>, usize)>, k: Seq<u8>)
    requires
        intern_entries_view(entries).contains_key(k),
    ensures
        exists|i: int| 0 <= i < entries.len() && (#[trigger] entries[i]).0@ == k,
    decreases entries.len(),
{
    if entries.len() > 0 {
        if k == entries.last().0@ {
            assert((entries[entries.len() - 1]).0@ == k);
        } else {
            lemma_intern_entries_view_member(entries.drop_last(), k);
            let i = choose|i: int|
                0 <= i < entries.drop_last().len() && (#[trigger] entries.drop_last()[i]).0@ == k;
            assert(entries.drop_last()[i] == entries[i]);
            assert((entries[i]).0@ == k);
        }
    }
}

/// Each pair of the list stands in the view; under uniqueness its content
/// maps to its position.
pub proof fn lemma_intern_entries_view_at(entries: Seq<(Vec<u8>, usize)>, i: int)
    requires
        0 <= i < entries.len(),
    ensures
        intern_entries_view(entries).contains_key(entries[i].0@),
        intern_entries_unique(entries) ==> intern_entries_view(entries)[entries[i].0@]
            == entries[i].1 as int,
    decreases entries.len(),
{
    if i == entries.len() - 1 {
    } else {
        lemma_intern_entries_view_at(entries.drop_last(), i);
        assert(entries.drop_last()[i] == entries[i]);
        if intern_entries_unique(entries) {
            assert(entries[i].0@ != entries.last().0@);
        }
    }
}

/// Under uniqueness the view holds exactly one key per pair.
pub proof fn lemma_intern_entries_view_len(entries: Seq<(Vec<u8>, usize)>)
    requires
        intern_entries_unique(entries),
    ensures
        intern_entries_view(entries).dom().finite(),
        intern_entries_view(entries).len() == entries.len(),
    decreases entries.len(),
{
    broadcast use vstd::set::group_set_axioms;

    if entries.len() > 0 {
        lemma_intern_entries_view_len(entries.drop_last());
        if intern_entries_view(entries.drop_last()).contains_key(entries.last().0@) {
            lemma_intern_entries_view_member(entries.drop_last(), entries.last().0@);
            let i = choose|i: int|
                0 <= i < entries.drop_last().len() && (#[trigger] entries.drop_last()[i]).0@
                    == entries.last().0@;
            assert(entries.drop_last()[i] == entries[i]);
            assert(false);
        }
    }
}

/// The capability a serializer gains when an intern registry is composed
/// into it: looking interned content up by borrowed bytes, and recording
/// the position at which owned content was first written.
pub trait InternSerializeRegistry: Sized {
    /// The error this registry's insertion can fail with.
    type Error;

    /// The mapping from interned content to its recorded position.
    spec fn interned(&self) -> Map<Seq<u8>, int>;

    /// The greatest number of entries this registry accepts.
    spec fn intern_capacity(&self) -> int;

    /// The registry's internal invariant.
    spec fn intern_wf(&self) -> bool;

    /// Looks content up; answers exactly when equal content was recorded
    /// earlier in this session.
    fn get_interned(&self, value: &[u8]) -> (r: Option<usize>)
        requires
            self.intern_wf(),
        ensures
            match r {
                Some(p) => self.interned().contains_key(value@) && p as int
                    == self.interned()[value@],
                None => !self.interned().contains_key(value@),
            },
    ;

    /// Records content not yet interned together with the position where
    /// its bytes were written; fails, changing nothing, exactly when the
    /// registry is at capacity.
    fn add_interned(&mut self, value: Vec<u8>, pos: usize) -> (r: Result<(), Self::Error>)
        requires
            old(self).intern_wf(),
            !old(self).interned().contains_key(value@),
        ensures
            final(self).intern_wf(),
            final(self).intern_capacity() == old(self).intern_capacity(),
            r is Ok <==> old(self).interned().len() < old(self).intern_capacity(),
            r is Ok ==> final(self).interned() == old(self).interned().insert(value@, pos as int),
            r is Err ==> final(self).interned() == old(self).interned(),
    ;
}

/// The session intern registry: owned content paired with the position of
/// its single physical copy, capped at a fixed number of entries. Lookup
/// compares the queried bytes against each stored entry in turn.
#[derive(Debug)]
pub struct InternSerializeMap {
    entries: Vec<(Vec<u8>, usize)>,
    capacity: usize,
}

impl InternSerializeMap {
    /// Creates an empty registry that accepts at most `capacity` distinct
    /// contents.
    pub fn new(capacity: usize) -> (r: Self)
        ensures
            r.intern_wf(),
            r.interned() =~= Map::<Seq<u8>, int>::empty(),
            r.intern_capacity() == capacity,
    {
        InternSerializeMap { entries: Vec::new(), capacity }
    }
}

impl Default for InternSerializeMap {
    /// An empty registry that accepts as many entries as memory allows.
    fn default() -> (r: Self)
        ensures
            r.intern_wf(),
            r.interned() =~= Map::<Seq<u8>, int>::empty(),
            r.intern_capacity() == usize::MAX,
    {
        InternSerializeMap::new(usize::MAX)
    }
}

/// Byte-wise equality of two slices.
pub fn bytes_eq(a: &[u8], b: &[u8]) -> (r: bool)
    ensures
        r == (a@ == b@),
{
    if a.len() != b.len() {
        return false;
    }
    let mut i: usize = 0;
    while i < a.len()
        invariant
            i <= a@.len(),
            a@.len() == b@.len(),
            forall|j: int| 0 <= j < i ==> a@[j] == b@[j],
        decreases a@.len() - i,
    {
        if a[i] != b[i] {
            return false;
        }
        i = i + 1;
    }
    proof {
        assert(a@ =~= b@);
    }
    true
}

impl InternSerializeRegistry for InternSerializeMap {
    type Error = InternError;

    /// The mapping from interned content to its recorded position.
    closed spec fn interned(&self) -> Map<Seq<u8>, int> {
        intern_entries_view(self.entries@)
    }

    /// The greatest number of entries this registry accepts.
    closed spec fn intern_capacity(&self) -> int {
        self.capacity as int
    }

    /// Well-formed: each content is held at most once.
    closed spec fn intern_wf(&self) -> bool {
        intern_entries_unique(self.entries@)
    }

    fn get_interned(&self, value: &[u8]) -> (r: Option<usize>) {
        let mut i: usize = 0;
        while i < self.entries.len()
            invariant
                i <= self.entries@.len(),
                self.intern_wf(),
                forall|j: int| 0 <= j < i ==> (#[trigger] self.entries@[j]).0@ != value@,
            decreases self.entries@.len() - i,
        {
            if bytes_eq(self.entries[i].0.as_slice(), value) {
                proof {
                    lemma_intern_entries_view_at(self.entries@, i as int);
                }
                return Some(self.entries[i].1);
            }
            i = i + 1;
        }
        proof {
            if self.interned().contains_key(value@) {
                lemma_intern_entries_view_member(self.entries@, value@);
            }
        }
        None
    }

    fn add_interned(&mut self, value: Vec<u8>, pos: usize) -> (r: Result<(), InternError>) {
        proof {
            lemma_intern_entries_view_len(self.entries@);
        }
        if self.entries.len() >= self.capacity {
            return Err(InternError::RegistryFull);
        }
        let ghost old_entries = self.entries@;
        self.entries.push((value, pos));
        proof {
            assert(self.entries@.drop_last() =~= old_entries);
            assert forall|i: int, j: int|
                0 <= i < j < self.entries@.len() implies (#[trigger] self.entries@[i]).0@ != (
            #[trigger] self.entries@[j]).0@ by {
                if j == self.entries@.len() - 1 {
                    lemma_intern_entries_view_at(old_entries, i);
                }
            }
        }
        Ok(())
    }
}

} // verus!
