//! One serialization session over a sequence of payloads: every occurrence
//! gets its own reference record, while each distinct content is written
//! exactly once. The postconditions here carry the session's three load-
//! bearing guarantees: the buffer grows by the distinct contents only, the
//! records of equal contents are identical, and every record resolves back
//! to the payload it was written for.

use vstd::prelude::*;
use crate::adapter::InternAdapter;
use crate::registry::InternSerializeRegistry;
use crate::errors::{AdapterError, InternSerializerAdapterError, WriterError, InternError,
    ReaderError};
use crate::wire::{ArchivedRkyvInternedString, record_at, resolve_at, ref_record_bytes,
    lemma_record_at_append, lemma_record_at_prefix_stable, lemma_resolve_at_prefix_stable,
    REF_RECORD_BYTES};

verus! {

/// The byte contents of a sequence of owned payloads.
pub open spec fn views_of(values: Seq<Vec<u8>>) -> Seq<Seq<u8>> {
    values.map_values(|v: Vec<u8>| v@)
}

/// How many payload bytes a session appends for `vals` when the contents
/// in `seen` are already stored: each first occurrence of a content not
/// yet seen contributes its length, every other occurrence contributes
/// nothing.
pub open spec fn interned_growth(vals: Seq<Seq<u8>>, seen: Set<Seq<u8>>) -> int
    decreases vals.len(),
{
    if vals.len() == 0 {
        0
    } else {
        (if seen.contains(vals[0]) {
            0int
        } else {
            vals[0].len() as int
        }) + interned_growth(vals.drop_first(), seen.insert(vals[0]))
    }
}

/// Whether a session over `vals`, starting from the given registry and
/// buffer length, completes under the byte limit and registry capacity.
pub open spec fn session_fits(
    vals: Seq<Seq<u8>>,
    reg: Map<Seq<u8>, int>,
    buflen: int,
    limit: int,
    cap: int,
) -> bool
    decreases vals.len(),
{
    if vals.len() == 0 {
        true
    } else {
        let v = vals[0];
        if reg.contains_key(v) {
            buflen + REF_RECORD_BYTES as int <= limit && session_fits(
                vals.drop_first(),
                reg,
                buflen + REF_RECORD_BYTES as int,
                limit,
                cap,
            )
        } else {
            buflen + v.len() + REF_RECORD_BYTES as int <= limit && reg.len() < cap
                && session_fits(
                vals.drop_first(),
                reg.insert(v, buflen),
                buflen + v.len() + REF_RECORD_BYTES as int,
                limit,
                cap,
            )
        }
    }
}

/// Appending one more value grows a session's payload bytes by its length
/// exactly when its content was neither seen before the session nor
/// occurs earlier in it — the dedup guarantee: each distinct content is
/// stored once, regardless of how often and in what order it occurs.
pub proof fn lemma_interned_growth_push(vals: Seq<Seq<u8>>, seen: Set<Seq<u8>>, v: Seq<u8>)
    ensures
        interned_growth(vals.push(v), seen) == interned_growth(vals, seen) + (
        if seen.union(vals.to_set()).contains(v) {
            0int
        } else {
            v.len() as int
        }),
    decreases vals.len(),
{
    broadcast use vstd::seq_lib::group_seq_properties;

    if vals.len() == 0 {
        reveal_with_fuel(interned_growth, 2);
        assert(vals.push(v)[0] == v);
        assert(vals.push(v).drop_first() =~= Seq::<Seq<u8>>::empty());
        assert(!vals.to_set().contains(v)) by {
            if vals.to_set().contains(v) {
                assert(vals.contains(v));
            }
        }
        assert(seen.union(vals.to_set()).contains(v) == seen.contains(v));
    } else {
        assert(vals.push(v)[0] == vals[0]);
        assert(vals.push(v).drop_first() =~= vals.drop_first().push(v));
        lemma_interned_growth_push(vals.drop_first(), seen.insert(vals[0]), v);
        assert(seen.insert(vals[0]).union(vals.drop_first().to_set()) =~= seen.union(
            vals.to_set(),
        )) by {
            assert forall|x: Seq<u8>|
                seen.insert(vals[0]).union(vals.drop_first().to_set()).contains(x)
                    == seen.union(vals.to_set()).contains(x) by {
                if vals.drop_first().to_set().contains(x) {
                    assert(vals.drop_first().contains(x));
                    let i = choose|i: int|
                        0 <= i < vals.drop_first().len() && vals.drop_first()[i] == x;
                    assert(vals[i + 1] == x);
                    assert(vals.contains(x));
                }
                if x == vals[0] {
                    assert(vals.contains(x));
                }
                if vals.to_set().contains(x) && x != vals[0] {
                    assert(vals.contains(x));
                    let i = choose|i: int| 0 <= i < vals.len() && vals[i] == x;
                    assert(vals.drop_first()[i - 1] == x);
                    assert(vals.drop_first().contains(x));
                }
            }
        }
    }
}

/// A repeated occurrence adds no payload bytes: pushing a value already
/// seen, or already present in the sequence, leaves the growth unchanged.
pub proof fn lemma_interned_growth_dedup(vals: Seq<Seq<u8>>, seen: Set<Seq<u8>>, v: Seq<u8>)
    requires
        vals.contains(v) || seen.contains(v),
    ensures
        interned_growth(vals.push(v), seen) == interned_growth(vals, seen),
{
    lemma_interned_growth_push(vals, seen, v);
}

/// The total length of a finite set of distinct contents.
pub open spec fn distinct_len(contents: Set<Seq<u8>>) -> int {
    contents.fold(0int, |acc: int, v: Seq<u8>| acc + v.len() as int)
}

/// A session stores one byte-copy per distinct content value: the payload
/// bytes it appends are exactly the total length of the distinct contents
/// not already stored, however many occurrences there are and in whatever
/// order they come.
pub proof fn lemma_interned_growth_counts_distinct(vals: Seq<Seq<u8>>, seen: Set<Seq<u8>>)
    requires
        seen.finite(),
    ensures
        interned_growth(vals, seen) == distinct_len(vals.to_set().difference(seen)),
    decreases vals.len(),
{
    broadcast use vstd::seq_lib::seq_to_set_is_finite;
    broadcast use vstd::set::group_set_axioms;

    let f = |acc: int, v: Seq<u8>| acc + v.len() as int;
    assert(vstd::set::fold::is_fun_commutative(f));
    if vals.len() == 0 {
        assert(vals.to_set().difference(seen) =~= Set::<Seq<u8>>::empty()) by {
            assert forall|x: Seq<u8>| !vals.to_set().contains(x) by {
                if vals.to_set().contains(x) {
                    assert(vals.contains(x));
                }
            }
        }
        vstd::set::fold::lemma_fold_empty(0int, f);
    } else {
        let v0 = vals[0];
        let rest = vals.drop_first();
        lemma_interned_growth_counts_distinct(rest, seen.insert(v0));
        assert forall|x: Seq<u8>| #[trigger] vals.to_set().contains(x) implies x == v0
            || rest.to_set().contains(x) by {
            let i = choose|i: int| 0 <= i < vals.len() && vals[i] == x;
            if i > 0 {
                assert(rest[i - 1] == x);
            }
        }
        assert forall|x: Seq<u8>| #[trigger] rest.to_set().contains(x) implies vals.to_set().contains(
            x,
        ) by {
            let i = choose|i: int| 0 <= i < rest.len() && rest[i] == x;
            assert(vals[i + 1] == x);
        }
        assert(vals.contains(v0));
        let others = rest.to_set().difference(seen.insert(v0));
        if seen.contains(v0) {
            assert(vals.to_set().difference(seen) =~= others);
        } else {
            assert(vals.to_set().difference(seen) =~= others.insert(v0));
            assert(!others.contains(v0));
            vstd::set::fold::lemma_fold_insert(others, 0int, f, v0);
        }
    }
}

impl InternAdapter {
    /// Stamps the reference record for a payload at `pos` of `len` bytes
    /// out at the current position, and returns the record's own position.
    pub fn resolve_interned(&mut self, pos: usize, len: usize) -> (r: Result<usize, AdapterError>)
        requires
            old(self).wf(),
            pos <= u32::MAX as usize,
            len <= u32::MAX as usize,
        ensures
            final(self).wf(),
            final(self).byte_limit() == old(self).byte_limit(),
            final(self).interned() == old(self).interned(),
            final(self).intern_capacity() == old(self).intern_capacity(),
            final(self).shared_map() == old(self).shared_map(),
            final(self).scratch_stack() == old(self).scratch_stack(),
            final(self).pool_view() == old(self).pool_view(),
            final(self).cache_map() == old(self).cache_map(),
            r is Ok <==> old(self).bytes().len() + REF_RECORD_BYTES as int <= old(
                self,
            ).byte_limit(),
            r matches Ok(q) ==> q == old(self).bytes().len() && final(self).bytes() == old(
                self,
            ).bytes() + ref_record_bytes(pos as u32, len as u32) && record_at(
                final(self).bytes(),
                q as int,
            ) == Some(ArchivedRkyvInternedString { pos: pos as u32, len: len as u32 }),
            r is Err ==> final(self).bytes() == old(self).bytes() && r == Err::<usize,
                AdapterError,
            >(InternSerializerAdapterError::SerializerError(WriterError::Exhausted)),
    {
        let q = self.pos();
        let rec_bytes = ArchivedRkyvInternedString::encode(pos as u32, len as u32);
        match self.write(rec_bytes.as_slice()) {
            Ok(()) => {
                proof {
                    lemma_record_at_append(old(self).bytes(), pos as u32, len as u32);
                }
                Ok(q)
            },
            Err(e) => Err(e),
        }
    }

    /// Serializes a whole sequence of payloads in one session: for each
    /// occurrence, the payload is interned and a reference record is
    /// stamped out; the positions of the records are returned in order.
    ///
    /// On success the postconditions state the session's guarantees: the
    /// buffer grew by the distinct new contents plus one fixed-size record
    /// per occurrence; every record resolves to the content it was written
    /// for; and occurrences of equal content carry identical records, no
    /// matter which occurrence came first.
    #[verifier::loop_isolation(false)]
    #[verifier::rlimit(100)]
    pub fn serialize_values(&mut self, values: &Vec<Vec<u8>>) -> (r: Result<Vec<usize>,
        AdapterError>)
        requires
            old(self).wf(),
        ensures
            final(self).wf(),
            final(self).byte_limit() == old(self).byte_limit(),
            final(self).intern_capacity() == old(self).intern_capacity(),
            final(self).shared_map() == old(self).shared_map(),
            final(self).scratch_stack() == old(self).scratch_stack(),
            final(self).pool_view() == old(self).pool_view(),
            final(self).cache_map() == old(self).cache_map(),
            r is Ok <==> session_fits(
                views_of(values@),
                old(self).interned(),
                old(self).bytes().len() as int,
                old(self).byte_limit(),
                old(self).intern_capacity(),
            ),
            r matches Ok(qs) ==> qs@.len() == values@.len() && final(self).interned().dom() == old(
                self,
            ).interned().dom().union(views_of(values@).to_set()) && final(self).bytes().len()
                == old(self).bytes().len() + interned_growth(
                views_of(values@),
                old(self).interned().dom(),
            ) + REF_RECORD_BYTES as int * values@.len(),
            r matches Ok(qs) ==> forall|i: int|
                0 <= i < values@.len() ==> final(self).interned().contains_key(
                    #[trigger] views_of(values@)[i],
                ),
            r matches Ok(qs) ==> forall|i: int|
                0 <= i < values@.len() ==> ((#[trigger] record_at(
                    final(self).bytes(),
                    qs@[i] as int,
                )) matches Some(rec) && rec.pos as int == final(self).interned()[views_of(
                    values@,
                )[i]] && rec.len as int == views_of(values@)[i].len()),
            r matches Ok(qs) ==> forall|i: int|
                0 <= i < values@.len() ==> #[trigger] resolve_at(final(self).bytes(), qs@[i] as int)
                    == Some(views_of(values@)[i]),
            r matches Ok(qs) ==> forall|i: int, j: int|
                0 <= i < values@.len() && 0 <= j < values@.len() && views_of(values@)[i] == views_of(
                    values@,
                )[j] ==> record_at(final(self).bytes(), #[trigger] qs@[i] as int) == record_at(
                    final(self).bytes(),
                    #[trigger] qs@[j] as int,
                ),
            r matches Err(e) ==> match e {
                InternSerializerAdapterError::SerializerError(we) => we == WriterError::Exhausted,
                InternSerializerAdapterError::InternError(ie) => ie == InternError::RegistryFull,
                InternSerializerAdapterError::DeserializerError(_) => false,
            },
    {
        let ghost vmap = views_of(values@);
        let ghost dom0 = old(self).interned().dom();
        let ghost len0 = old(self).bytes().len() as int;
        let ghost limit = old(self).byte_limit();
        let ghost cap = old(self).intern_capacity();
        let ghost fits0 = session_fits(vmap, old(self).interned(), len0, limit, cap);
        let n = values.len();
        let mut qs: Vec<usize> = Vec::new();
        let mut idx: usize = 0;
        proof {
            assert(vmap.skip(0) =~= vmap);
            assert(vmap.take(0) =~= Seq::<Seq<u8>>::empty());
            assert(vmap.take(0).to_set() =~= Set::<Seq<u8>>::empty()) by {
                if exists|x: Seq<u8>| vmap.take(0).to_set().contains(x) {
                    let x = choose|x: Seq<u8>| vmap.take(0).to_set().contains(x);
                    assert(vmap.take(0).contains(x));
                }
            }
            assert(dom0.union(Set::<Seq<u8>>::empty()) =~= dom0);
        }
        while idx < n
            invariant
                idx <= n,
                qs@.len() == idx,
                self.wf(),
                self.byte_limit() == limit,
                self.intern_capacity() == cap,
                self.shared_map() == old(self).shared_map(),
                self.scratch_stack() == old(self).scratch_stack(),
                self.pool_view() == old(self).pool_view(),
                self.cache_map() == old(self).cache_map(),
                self.interned().dom() == dom0.union(vmap.take(idx as int).to_set()),
                self.bytes().len() + interned_growth(vmap.skip(idx as int), self.interned().dom())
                    + REF_RECORD_BYTES as int * (n - idx) == len0 + interned_growth(vmap, dom0)
                    + REF_RECORD_BYTES as int * n as int,
                session_fits(
                    vmap.skip(idx as int),
                    self.interned(),
                    self.bytes().len() as int,
                    limit,
                    cap,
                ) == fits0,
                forall|j: int| 0 <= j < idx ==> #[trigger] qs@[j] + REF_RECORD_BYTES as int
                    <= self.bytes().len(),
                forall|j: int| 0 <= j < idx ==> self.interned().contains_key(#[trigger] vmap[j]),
                forall|j: int|
                    0 <= j < idx ==> ((#[trigger] record_at(self.bytes(), qs@[j] as int)) matches
                        Some(rec) && rec.pos as int == self.interned()[vmap[j]] && rec.len as int
                        == vmap[j].len()),
                forall|j: int|
                    0 <= j < idx ==> #[trigger] resolve_at(self.bytes(), qs@[j] as int) == Some(
                        vmap[j],
                    ),
            decreases n - idx,
        {
            let ghost pre = *self;
            proof {
                assert(vmap.skip(idx as int)[0] == vmap[idx as int]);
                assert(vmap.skip(idx as int).drop_first() =~= vmap.skip(idx as int + 1));
            }
            let value = &values[idx];
            let p = match self.serialize_interned(value.as_slice()) {
                Ok(p) => p,
                Err(e) => {
                    proof {
                        assert(!session_fits(
                            vmap.skip(idx as int),
                            pre.interned(),
                            pre.bytes().len() as int,
                            limit,
                            cap,
                        ));
                    }
                    return Err(e);
                },
            };
            let ghost mid = *self;
            proof {
                self.lemma_wf_bounds();
                assert(vmap[idx as int] == values@[idx as int]@);
            }
            let q = match self.resolve_interned(p, value.len()) {
                Ok(q) => q,
                Err(e) => {
                    proof {
                        assert(!session_fits(
                            vmap.skip(idx as int),
                            pre.interned(),
                            pre.bytes().len() as int,
                            limit,
                            cap,
                        ));
                    }
                    return Err(e);
                },
            };
            qs.push(q);
            proof {
                let v = vmap[idx as int];
                assert(v == value@);
                let mid_interned = if pre.interned().contains_key(v) {
                    pre.interned()
                } else {
                    pre.interned().insert(v, pre.bytes().len() as int)
                };
                assert(self.interned() == mid_interned);
                // The registry's domain after this occurrence.
                assert(vmap.take(idx as int + 1) =~= vmap.take(idx as int).push(v));
                assert(self.interned().dom() =~= dom0.union(vmap.take(idx as int + 1).to_set()))
                    by {
                    assert forall|x: Seq<u8>|
                        self.interned().dom().contains(x) == dom0.union(
                            vmap.take(idx as int + 1).to_set(),
                        ).contains(x) by {
                        if vmap.take(idx as int + 1).to_set().contains(x) {
                            assert(vmap.take(idx as int + 1).contains(x));
                            let k = choose|k: int|
                                0 <= k < vmap.take(idx as int + 1).len() && #[trigger] vmap.take(
                                    idx as int + 1,
                                )[k] == x;
                            if k < idx as int {
                                assert(vmap.take(idx as int).contains(x));
                            }
                        }
                        if vmap.take(idx as int).to_set().contains(x) {
                            assert(vmap.take(idx as int).contains(x));
                            let k = choose|k: int|
                                0 <= k < vmap.take(idx as int).len() && #[trigger] vmap.take(
                                    idx as int,
                                )[k] == x;
                            assert(vmap.take(idx as int + 1)[k] == x);
                            assert(vmap.take(idx as int + 1).contains(x));
                        }
                        if x == v {
                            assert(vmap.take(idx as int + 1)[idx as int] == x);
                            assert(vmap.take(idx as int + 1).contains(x));
                        }
                    }
                }
                if pre.interned().contains_key(v) {
                    assert(pre.interned().dom().insert(v) =~= pre.interned().dom());
                }
                // Records written earlier stay readable and resolve as
                // before: the buffer only grew at its end.
                let ext = self.bytes().subrange(pre.bytes().len() as int,
                    self.bytes().len() as int);
                assert(self.bytes() =~= pre.bytes() + ext);
                assert forall|j: int| 0 <= j < idx implies ((#[trigger] record_at(
                    self.bytes(),
                    qs@[j] as int,
                )) matches Some(rec) && rec.pos as int == self.interned()[vmap[j]] && rec.len
                    as int == vmap[j].len()) by {
                    assert(qs@[j] == qs@.subrange(0, idx as int)[j]);
                    lemma_record_at_prefix_stable(pre.bytes(), ext, qs@[j] as int);
                }
                assert forall|j: int| 0 <= j < idx implies #[trigger] resolve_at(
                    self.bytes(),
                    qs@[j] as int,
                ) == Some(vmap[j]) by {
                    assert(qs@[j] == qs@.subrange(0, idx as int)[j]);
                    lemma_resolve_at_prefix_stable(pre.bytes(), ext, qs@[j] as int);
                }
                // The record stamped out for this occurrence.
                assert(qs@[idx as int] == q);
                assert(p as int == self.interned()[v]);
                assert(record_at(self.bytes(), q as int) == Some(
                    ArchivedRkyvInternedString { pos: p as u32, len: value@.len() as u32 },
                ));
                assert(p + v.len() <= mid.bytes().len());
                assert(self.bytes().subrange(p as int, p + v.len()) =~= mid.bytes().subrange(
                    p as int,
                    p + v.len(),
                ));
                assert(resolve_at(self.bytes(), q as int) == Some(v));
            }
            idx = idx + 1;
        }
        proof {
            assert(vmap.skip(n as int) =~= Seq::<Seq<u8>>::empty());
            assert(vmap.take(n as int) =~= vmap);
            assert(fits0);
            assert forall|i: int, j: int|
                0 <= i < vmap.len() && 0 <= j < vmap.len() && vmap[i] == vmap[j] implies record_at(
                self.bytes(),
                #[trigger] qs@[i] as int,
            ) == record_at(self.bytes(), #[trigger] qs@[j] as int) by {
                let ri = record_at(self.bytes(), qs@[i] as int).unwrap();
                let rj = record_at(self.bytes(), qs@[j] as int).unwrap();
                assert(ri.pos == rj.pos && ri.len == rj.len);
            }
        }
        Ok(qs)
    }
}

/// Decodes a whole archive: reads the record at each given position and
/// resolves it to its payload. Succeeds exactly when every record and its
/// target lie inside the buffer.
pub fn deserialize_values(buf: &Vec<u8>, positions: &Vec<usize>) -> (r: Result<Vec<Vec<u8>>,
    ReaderError>)
    ensures
        r is Ok <==> forall|i: int|
            0 <= i < positions@.len() ==> #[trigger] resolve_at(buf@, positions@[i] as int)
                is Some,
        r matches Ok(out) ==> out@.len() == positions@.len() && forall|i: int|
            0 <= i < positions@.len() ==> #[trigger] (out@[i]@) == resolve_at(
                buf@,
                positions@[i] as int,
            ).unwrap(),
        r matches Err(e) ==> (e == ReaderError::TruncatedRecord || e == ReaderError::OutOfBounds)
            && exists|i: int|
            0 <= i < positions@.len() && #[trigger] resolve_at(buf@, positions@[i] as int)
                is None,
{
    let mut out: Vec<Vec<u8>> = Vec::new();
    let mut i: usize = 0;
    while i < positions.len()
        invariant
            i <= positions@.len(),
            out@.len() == i,
            forall|j: int|
                0 <= j < i ==> #[trigger] resolve_at(buf@, positions@[j] as int) is Some,
            forall|j: int|
                0 <= j < i ==> #[trigger] (out@[j]@) == resolve_at(
                    buf@,
                    positions@[j] as int,
                ).unwrap(),
        decreases positions@.len() - i,
    {
        let rec = match ArchivedRkyvInternedString::read_from(buf, positions[i]) {
            Ok(rec) => rec,
            Err(e) => {
                proof {
                    assert(resolve_at(buf@, positions@[i as int] as int) is None);
                }
                return Err(e);
            },
        };
        let payload = match rec.resolve(buf) {
            Ok(p) => p,
            Err(e) => {
                proof {
                    assert(resolve_at(buf@, positions@[i as int] as int) is None);
                }
                return Err(e);
            },
        };
        out.push(payload);
        i = i + 1;
    }
    Ok(out)
}

} // verus!
