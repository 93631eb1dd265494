//! A relation: an insertion-ordered collection of records of one type, with
//! identifier-unique CRUD semantics and a dirty flag for the persistence
//! path.

use vstd::prelude::*;
use vstd::pervasive::VecAdditionalExecFns;
use vstd::string::StringExecFns;

use crate::codec::num;
use crate::error::JoydbError;
use crate::model::Model;

verus! {

/// Whether some record in `s` carries the identifier `id`.
pub open spec fn contains_id<M: Model>(s: Seq<M>, id: u128) -> bool {
    exists|k: int| 0 <= k < s.len() && (#[trigger] s[k].spec_id()) == id
}

/// The first position at or after `i` whose record carries `id`, or
/// `s.len()` when there is none.
pub open spec fn first_idx_from<M: Model>(s: Seq<M>, id: u128, i: int) -> int
    decreases s.len() - i,
{
    if i < 0 || i >= s.len() {
        s.len() as int
    } else if s[i].spec_id() == id {
        i
    } else {
        first_idx_from(s, id, i + 1)
    }
}

/// The position of the first record carrying `id`, or `s.len()` when there
/// is none.
pub open spec fn first_idx<M: Model>(s: Seq<M>, id: u128) -> int {
    first_idx_from(s, id, 0)
}

/// What `first_idx_from` finds: the first hit, nothing before it, and a hit
/// exists exactly when the identifier occurs.
pub proof fn lemma_first_idx_from<M: Model>(s: Seq<M>, id: u128, i: int)
    requires
        0 <= i <= s.len(),
    ensures
        i <= first_idx_from(s, id, i) <= s.len(),
        first_idx_from(s, id, i) < s.len() ==> s[first_idx_from(s, id, i)].spec_id() == id,
        forall|t: int|
            i <= t < first_idx_from(s, id, i) ==> (#[trigger] s[t].spec_id()) != id,
        (first_idx_from(s, id, i) < s.len()) <==> exists|k: int|
            i <= k < s.len() && (#[trigger] s[k].spec_id()) == id,
    decreases s.len() - i,
{
    if i < s.len() && s[i].spec_id() != id {
        lemma_first_idx_from(s, id, i + 1);
    }
}

/// No two records of `s` carry the same identifier.
pub open spec fn unique_ids<M: Model>(s: Seq<M>) -> bool {
    forall|a: int, b: int|
        0 <= a < b < s.len() ==> (#[trigger] s[a].spec_id()) != (#[trigger] s[b].spec_id())
}

/// The records of `s` selected by the positions where `keep` is true,
/// in order. Empty when the mask does not match `s` in length.
pub open spec fn mask_keep<M>(s: Seq<M>, keep: Seq<bool>) -> Seq<M>
    decreases s.len(),
{
    if s.len() == 0 || keep.len() != s.len() {
        Seq::empty()
    } else if keep.last() {
        mask_keep(s.drop_last(), keep.drop_last()).push(s.last())
    } else {
        mask_keep(s.drop_last(), keep.drop_last())
    }
}

/// The records of `s` selected by the positions where `keep` is false,
/// in order. Empty when the mask does not match `s` in length.
pub open spec fn mask_drop<M>(s: Seq<M>, keep: Seq<bool>) -> Seq<M>
    decreases s.len(),
{
    if s.len() == 0 || keep.len() != s.len() {
        Seq::empty()
    } else if keep.last() {
        mask_drop(s.drop_last(), keep.drop_last())
    } else {
        mask_drop(s.drop_last(), keep.drop_last()).push(s.last())
    }
}

/// Transient bookkeeping of a relation. It is never persisted: a relation
/// serializes as exactly its sequence of records.
#[derive(Debug, Default)]
pub struct RelationMeta {
    /// Whether mutations were applied since the last successful flush.
    pub is_dirty: bool,
}

/// An insertion-ordered collection of records of one type.
///
/// At most one record per identifier is ever admitted by the mutating
/// operations, and every mutation that changes the records sets the dirty
/// flag. The collection itself is not synchronized; callers serialize
/// access.
#[derive(Debug)]
pub struct Relation<M: Model> {
    meta: RelationMeta,
    records: Vec<M>,
}

impl<M: Model> View for Relation<M> {
    type V = Seq<M>;

    closed spec fn view(&self) -> Seq<M> {
        self.records@
    }
}

impl<M: Model> Relation<M> {
    /// Whether unsaved mutations exist, as seen by specifications.
    pub closed spec fn spec_dirty(&self) -> bool {
        self.meta.is_dirty
    }

    /// Creates an empty, clean relation.
    pub fn new() -> (r: Self)
        ensures
            r@ == Seq::<M>::empty(),
            !r.spec_dirty(),
    {
        Relation { meta: RelationMeta { is_dirty: false }, records: Vec::new() }
    }

    /// Creates a clean relation holding exactly `records`.
    pub fn new_with_records(records: Vec<M>) -> (r: Self)
        ensures
            r@ == records@,
            !r.spec_dirty(),
    {
        Relation { meta: RelationMeta { is_dirty: false }, records }
    }

    /// Whether mutations were applied since the last successful flush.
    pub fn is_dirty(&self) -> (r: bool)
        ensures
            r == self.spec_dirty(),
    {
        self.meta.is_dirty
    }

    /// Clears the dirty flag; invoked by the persistence path after a fully
    /// successful flush.
    pub fn reset_dirty(&mut self)
        ensures
            final(self)@ == old(self)@,
            !final(self).spec_dirty(),
    {
        self.meta.is_dirty = false;
    }

    /// The records, in insertion order.
    pub fn records(&self) -> (r: &Vec<M>)
        ensures
            r@ == self@,
    {
        &self.records
    }

    /// Appends `record`, unless a record with the same identifier is already
    /// present; in that case nothing changes and the insert fails.
    #[verifier::loop_isolation(false)]
    pub fn insert(&mut self, record: &M) -> (r: Result<(), JoydbError>)
        ensures
            !contains_id(old(self)@, record.spec_id()) ==> {
                &&& r is Ok
                &&& final(self)@ == old(self)@.push(*record)
                &&& final(self).spec_dirty()
            },
            contains_id(old(self)@, record.spec_id()) ==> {
                &&& *final(self) == *old(self)
                &&& r matches Err(JoydbError::DuplicatedId { id, model }) && id@ == num::dec(
                    record.spec_id(),
                ) && model@ == M::spec_model_name()
            },
    {
        let id = record.id();
        let n = self.records.len();
        let mut k: usize = 0;
        while k < n
            invariant
                k <= n,
                n == self@.len(),
                *self == *old(self),
                forall|t: int| 0 <= t < k ==> (#[trigger] self@[t].spec_id()) != id,
            decreases n - k,
        {
            if self.records[k].id() == id {
                return Err(
                    JoydbError::DuplicatedId {
                        id: num::u128_to_string(id),
                        model: String::from_str(M::relation_name()),
                    },
                );
            }
            k = k + 1;
        }
        self.records.push(record.clone_record());
        self.meta.is_dirty = true;
        Ok(())
    }

    /// Returns a copy of the first record carrying `id`, or nothing.
    #[verifier::loop_isolation(false)]
    pub fn get(&self, id: u128) -> (r: Result<Option<M>, JoydbError>)
        ensures
            contains_id(self@, id) ==> r == Ok::<Option<M>, JoydbError>(
                Some(self@[first_idx(self@, id)]),
            ),
            !contains_id(self@, id) ==> r == Ok::<Option<M>, JoydbError>(None),
    {
        proof {
            lemma_first_idx_from(self@, id, 0);
        }
        let n = self.records.len();
        let mut k: usize = 0;
        while k < n
            invariant
                k <= n,
                n == self@.len(),
                forall|t: int| 0 <= t < k ==> (#[trigger] self@[t].spec_id()) != id,
            decreases n - k,
        {
            if self.records[k].id() == id {
                return Ok(Some(self.records[k].clone_record()));
            }
            k = k + 1;
        }
        Ok(None)
    }

    /// Returns a copy of all records, in insertion order.
    #[verifier::loop_isolation(false)]
    pub fn get_all(&self) -> (r: Result<Vec<M>, JoydbError>)
        ensures
            r matches Ok(v) && v@ == self@,
    {
        let n = self.records.len();
        let mut v: Vec<M> = Vec::new();
        let mut k: usize = 0;
        while k < n
            invariant
                k <= n,
                n == self@.len(),
                v@ == self@.subrange(0, k as int),
            decreases n - k,
        {
            v.push(self.records[k].clone_record());
            proof {
                assert(v@ =~= self@.subrange(0, k + 1));
            }
            k = k + 1;
        }
        proof {
            assert(self@.subrange(0, n as int) =~= self@);
        }
        Ok(v)
    }

    /// Returns a copy of every record on which the predicate returns true,
    /// in insertion order.
    #[verifier::loop_isolation(false)]
    pub fn get_all_by<F: Fn(&M) -> bool>(&self, predicate: F) -> (r: Result<
        Vec<M>,
        JoydbError,
    >)
        requires
            forall|k: int| 0 <= k < self@.len() ==> call_requires(predicate, (&self@[k],)),
        ensures
            r matches Ok(v) && exists|keep: Seq<bool>|
                {
                    &&& keep.len() == self@.len()
                    &&& forall|t: int|
                        0 <= t < keep.len() ==> call_ensures(
                            predicate,
                            (&self@[t],),
                            #[trigger] keep[t],
                        )
                    &&& v@ == mask_keep(self@, keep)
                },
    {
        let n = self.records.len();
        let mut v: Vec<M> = Vec::new();
        let ghost mut keep: Seq<bool> = Seq::empty();
        let mut k: usize = 0;
        while k < n
            invariant
                k <= n,
                n == self@.len(),
                keep.len() == k,
                forall|t: int|
                    0 <= t < k ==> call_ensures(predicate, (&self@[t],), #[trigger] keep[t]),
                v@ == mask_keep(self@.subrange(0, k as int), keep),
            decreases n - k,
        {
            let b = predicate(&self.records[k]);
            if b {
                v.push(self.records[k].clone_record());
            }
            proof {
                let s1 = self@.subrange(0, k + 1);
                assert(s1.drop_last() =~= self@.subrange(0, k as int));
                assert(keep.push(b).drop_last() =~= keep);
                assert(s1.last() == self@[k as int]);
                keep = keep.push(b);
            }
            k = k + 1;
        }
        proof {
            assert(self@.subrange(0, n as int) =~= self@);
        }
        Ok(v)
    }

    /// The number of records.
    pub fn count(&self) -> (r: Result<usize, JoydbError>)
        ensures
            r matches Ok(c) && c == self@.len(),
    {
        Ok(self.records.len())
    }

    /// Replaces the record carrying the same identifier as `new_record`,
    /// keeping its position; fails when no such record exists.
    #[verifier::loop_isolation(false)]
    pub fn update(&mut self, new_record: &M) -> (r: Result<(), JoydbError>)
        ensures
            contains_id(old(self)@, new_record.spec_id()) ==> {
                &&& r is Ok
                &&& final(self)@ == old(self)@.update(
                    first_idx(old(self)@, new_record.spec_id()),
                    *new_record,
                )
                &&& final(self).spec_dirty()
            },
            !contains_id(old(self)@, new_record.spec_id()) ==> {
                &&& *final(self) == *old(self)
                &&& r matches Err(JoydbError::NotFound { id, model }) && id@ == num::dec(
                    new_record.spec_id(),
                ) && model@ == M::spec_model_name()
            },
    {
        proof {
            lemma_first_idx_from(old(self)@, new_record.spec_id(), 0);
        }
        let id = new_record.id();
        let n = self.records.len();
        let mut k: usize = 0;
        while k < n
            invariant
                k <= n,
                n == self@.len(),
                *self == *old(self),
                forall|t: int| 0 <= t < k ==> (#[trigger] self@[t].spec_id()) != id,
            decreases n - k,
        {
            if self.records[k].id() == id {
                self.records.set(k, new_record.clone_record());
                self.meta.is_dirty = true;
                return Ok(());
            }
            k = k + 1;
        }
        Err(
            JoydbError::NotFound {
                id: num::u128_to_string(id),
                model: String::from_str(M::relation_name()),
            },
        )
    }

    /// Replaces the record carrying the same identifier, or appends the
    /// record when none does. Always succeeds and always marks the relation
    /// dirty.
    #[verifier::loop_isolation(false)]
    pub fn upsert(&mut self, record: &M) -> (r: Result<(), JoydbError>)
        ensures
            r is Ok,
            contains_id(old(self)@, record.spec_id()) ==> final(self)@ == old(self)@.update(
                first_idx(old(self)@, record.spec_id()),
                *record,
            ),
            !contains_id(old(self)@, record.spec_id()) ==> final(self)@ == old(self)@.push(
                *record,
            ),
            final(self).spec_dirty(),
    {
        proof {
            lemma_first_idx_from(old(self)@, record.spec_id(), 0);
        }
        let id = record.id();
        let n = self.records.len();
        let mut k: usize = 0;
        while k < n
            invariant
                k <= n,
                n == self@.len(),
                *self == *old(self),
                forall|t: int| 0 <= t < k ==> (#[trigger] self@[t].spec_id()) != id,
            decreases n - k,
        {
            if self.records[k].id() == id {
                self.records.set(k, record.clone_record());
                self.meta.is_dirty = true;
                return Ok(());
            }
            k = k + 1;
        }
        self.records.push(record.clone_record());
        self.meta.is_dirty = true;
        Ok(())
    }

    /// Removes and returns the first record carrying `id`. When no record
    /// carries it, nothing changes — the dirty flag included — and nothing
    /// is returned.
    #[verifier::loop_isolation(false)]
    pub fn delete(&mut self, id: u128) -> (r: Result<Option<M>, JoydbError>)
        ensures
            contains_id(old(self)@, id) ==> {
                &&& r == Ok::<Option<M>, JoydbError>(
                    Some(old(self)@[first_idx(old(self)@, id)]),
                )
                &&& final(self)@ == old(self)@.remove(first_idx(old(self)@, id))
                &&& final(self).spec_dirty()
            },
            !contains_id(old(self)@, id) ==> {
                &&& r == Ok::<Option<M>, JoydbError>(None)
                &&& *final(self) == *old(self)
            },
    {
        proof {
            lemma_first_idx_from(old(self)@, id, 0);
        }
        let n = self.records.len();
        let mut k: usize = 0;
        while k < n
            invariant
                k <= n,
                n == self@.len(),
                *self == *old(self),
                forall|t: int| 0 <= t < k ==> (#[trigger] self@[t].spec_id()) != id,
            decreases n - k,
        {
            if self.records[k].id() == id {
                let rec = self.records.remove(k);
                self.meta.is_dirty = true;
                return Ok(Some(rec));
            }
            k = k + 1;
        }
        Ok(None)
    }

    /// Removes and returns every record on which the predicate returns true,
    /// preserving the relative order of the survivors. The dirty flag is set
    /// only when at least one record was removed.
    #[verifier::loop_isolation(false)]
    pub fn delete_all_by<F: Fn(&M) -> bool>(&mut self, predicate: F) -> (r: Result<
        Vec<M>,
        JoydbError,
    >)
        requires
            forall|k: int|
                0 <= k < old(self)@.len() ==> call_requires(predicate, (&old(self)@[k],)),
        ensures
            r matches Ok(removed) && exists|keep: Seq<bool>|
                {
                    &&& keep.len() == old(self)@.len()
                    &&& forall|t: int|
                        0 <= t < keep.len() ==> call_ensures(
                            predicate,
                            (&old(self)@[t],),
                            #[trigger] keep[t],
                        )
                    &&& removed@ == mask_keep(old(self)@, keep)
                    &&& final(self)@ == mask_drop(old(self)@, keep)
                    &&& final(self).spec_dirty() == (old(self).spec_dirty() || removed@.len()
                        > 0)
                },
    {
        let mut tmp: Vec<M> = Vec::new();
        core::mem::swap(&mut self.records, &mut tmp);
        let n = tmp.len();
        let mut removed: Vec<M> = Vec::new();
        let mut kept: Vec<M> = Vec::new();
        let ghost mut keep: Seq<bool> = Seq::empty();
        let mut k: usize = 0;
        while k < n
            invariant
                k <= n,
                n == tmp@.len(),
                tmp@ == old(self)@,
                keep.len() == k,
                forall|t: int|
                    0 <= t < k ==> call_ensures(predicate, (&tmp@[t],), #[trigger] keep[t]),
                removed@ == mask_keep(tmp@.subrange(0, k as int), keep),
                kept@ == mask_drop(tmp@.subrange(0, k as int), keep),
            decreases n - k,
        {
            let b = predicate(&tmp[k]);
            if b {
                removed.push(tmp[k].clone_record());
            } else {
                kept.push(tmp[k].clone_record());
            }
            proof {
                let s1 = tmp@.subrange(0, k + 1);
                assert(s1.drop_last() =~= tmp@.subrange(0, k as int));
                assert(keep.push(b).drop_last() =~= keep);
                assert(s1.last() == tmp@[k as int]);
                keep = keep.push(b);
            }
            k = k + 1;
        }
        proof {
            assert(tmp@.subrange(0, n as int) =~= tmp@);
        }
        if removed.len() > 0 {
            self.meta.is_dirty = true;
        }
        self.records = kept;
        Ok(removed)
    }
}

/// After a successful insert, a get with the same identifier returns
/// exactly the inserted record: the appended record is the first hit for
/// its identifier, because no earlier record carries it.
pub proof fn lemma_insert_then_get<M: Model>(s: Seq<M>, rec: M)
    requires
        !contains_id(s, rec.spec_id()),
    ensures
        contains_id(s.push(rec), rec.spec_id()),
        s.push(rec)[first_idx(s.push(rec), rec.spec_id())] == rec,
{
    let s2 = s.push(rec);
    let id = rec.spec_id();
    assert(s2[s.len() as int].spec_id() == id);
    lemma_first_idx_from(s2, id, 0);
    let fi = first_idx(s2, id);
    if fi < s.len() {
        assert(s2[fi] == s[fi]);
        assert(contains_id(s, id));
    }
}

/// Inserting a record whose identifier is absent preserves identifier
/// uniqueness; together with the insert contract — which rejects a
/// colliding insert and leaves the relation unchanged — at most one record
/// per identifier ever coexists, and an insert never silently overwrites.
pub proof fn lemma_insert_preserves_unique_ids<M: Model>(s: Seq<M>, rec: M)
    requires
        unique_ids(s),
        !contains_id(s, rec.spec_id()),
    ensures
        unique_ids(s.push(rec)),
{
    let s2 = s.push(rec);
    assert forall|a: int, b: int| 0 <= a < b < s2.len() implies (#[trigger] s2[a].spec_id())
        != (#[trigger] s2[b].spec_id()) by {
        if b == s.len() {
            assert(s2[a] == s[a]);
            if s[a].spec_id() == rec.spec_id() {
                assert(contains_id(s, rec.spec_id()));
            }
        } else {
            assert(s2[a] == s[a] && s2[b] == s[b]);
        }
    }
}

/// Replacing the first record of an identifier by another record with the
/// same identifier preserves identifier uniqueness.
pub proof fn lemma_update_preserves_unique_ids<M: Model>(s: Seq<M>, rec: M)
    requires
        unique_ids(s),
        contains_id(s, rec.spec_id()),
    ensures
        unique_ids(s.update(first_idx(s, rec.spec_id()), rec)),
{
    let id = rec.spec_id();
    lemma_first_idx_from(s, id, 0);
    let fi = first_idx(s, id);
    let s2 = s.update(fi, rec);
    assert forall|a: int, b: int| 0 <= a < b < s2.len() implies (#[trigger] s2[a].spec_id())
        != (#[trigger] s2[b].spec_id()) by {
        assert(s[a].spec_id() != s[b].spec_id());
        assert(a == fi || s2[a] == s[a]);
        assert(b == fi || s2[b] == s[b]);
        assert(s2[fi].spec_id() == s[fi].spec_id());
    }
}

/// Removing a record preserves identifier uniqueness.
pub proof fn lemma_remove_preserves_unique_ids<M: Model>(s: Seq<M>, i: int)
    requires
        unique_ids(s),
        0 <= i < s.len(),
    ensures
        unique_ids(s.remove(i)),
{
    s.remove_ensures(i);
    let s2 = s.remove(i);
    assert forall|a: int, b: int| 0 <= a < b < s2.len() implies (#[trigger] s2[a].spec_id())
        != (#[trigger] s2[b].spec_id()) by {
        let a0: int = if a < i { a } else { a + 1 };
        let b0: int = if b < i { b } else { b + 1 };
        assert(s2[a] == s[a0]);
        assert(s2[b] == s[b0]);
        assert(s[a0].spec_id() != s[b0].spec_id());
    }
}

/// Deleting an identifier removes its only occurrence: after removing the
/// first record carrying `id` from a relation with unique identifiers, a
/// get of `id` finds nothing.
pub proof fn lemma_delete_then_get<M: Model>(s: Seq<M>, id: u128)
    requires
        unique_ids(s),
        contains_id(s, id),
    ensures
        !contains_id(s.remove(first_idx(s, id)), id),
{
    lemma_first_idx_from(s, id, 0);
    let fi = first_idx(s, id);
    s.remove_ensures(fi);
    let s2 = s.remove(fi);
    assert forall|k: int| 0 <= k < s2.len() implies (#[trigger] s2[k].spec_id()) != id by {
        if k < fi {
            assert(s2[k] == s[k]);
        } else {
            assert(s2[k] == s[k + 1]);
            assert(s[fi].spec_id() == id);
        }
    }
}

/// Deleting by predicate preserves identifier uniqueness among the
/// survivors, and introduces no identifier that the relation did not hold.
pub proof fn lemma_mask_drop_unique<M: Model>(s: Seq<M>, keep: Seq<bool>)
    requires
        unique_ids(s),
        keep.len() == s.len(),
    ensures
        unique_ids(mask_drop(s, keep)),
        forall|id: u128| contains_id(mask_drop(s, keep), id) ==> #[trigger] contains_id(s, id),
    decreases s.len(),
{
    if s.len() > 0 {
        let s1 = s.drop_last();
        let k1 = keep.drop_last();
        assert forall|a: int, b: int| 0 <= a < b < s1.len() implies (#[trigger] s1[a].spec_id())
            != (#[trigger] s1[b].spec_id()) by {
            assert(s1[a] == s[a] && s1[b] == s[b]);
        }
        lemma_mask_drop_unique(s1, k1);
        let prev = mask_drop(s1, k1);
        assert forall|id: u128| contains_id(s1, id) implies #[trigger] contains_id(s, id) by {
            let w = choose|w: int| 0 <= w < s1.len() && (#[trigger] s1[w].spec_id()) == id;
            assert(s[w].spec_id() == id);
        }
        if !keep.last() {
            let s2 = mask_drop(s, keep);
            assert(s2 == prev.push(s.last()));
            assert forall|a: int, b: int| 0 <= a < b < s2.len() implies (
            #[trigger] s2[a].spec_id()) != (#[trigger] s2[b].spec_id()) by {
                if b == s2.len() - 1 {
                    assert(s2[a] == prev[a]);
                    assert(s2[b] == s.last());
                    if prev[a].spec_id() == s.last().spec_id() {
                        assert(contains_id(prev, s.last().spec_id()));
                        assert(contains_id(s1, s.last().spec_id()));
                        let w = choose|w: int|
                            0 <= w < s1.len() && (#[trigger] s1[w].spec_id())
                                == s.last().spec_id();
                        assert(s[w].spec_id() == s[s.len() - 1].spec_id());
                    }
                } else {
                    assert(s2[a] == prev[a] && s2[b] == prev[b]);
                }
            }
            assert forall|id: u128| contains_id(s2, id) implies #[trigger] contains_id(
                s,
                id,
            ) by {
                let w = choose|w: int| 0 <= w < s2.len() && (#[trigger] s2[w].spec_id()) == id;
                if w == s2.len() - 1 {
                    assert(s[s.len() - 1].spec_id() == id);
                } else {
                    assert(contains_id(prev, id));
                }
            }
        } else {
            assert forall|id: u128| contains_id(mask_drop(s, keep), id) implies
                #[trigger] contains_id(s, id) by {
                assert(contains_id(prev, id));
            }
        }
    }
}

/// A count result and a full listing of the same relation always agree:
/// the count equals the length of what a full read returns.
pub proof fn lemma_count_matches_get_all<M: Model>(rel: Relation<M>, c: usize, all: Seq<M>)
    requires
        c == rel@.len(),
        all == rel@,
    ensures
        c == all.len(),
{
}

/// On an empty relation no identifier is present, so an update always
/// fails with a not-found error, as the update contract then states.
pub proof fn lemma_update_on_empty_fails<M: Model>(id: u128)
    ensures
        !contains_id(Seq::<M>::empty(), id),
{
}

/// On an empty relation an upsert takes the same action as an insert:
/// no identifier can collide, so the insert succeeds and both append the
/// record, set the dirty flag, and report success.
pub proof fn lemma_upsert_on_empty_like_insert<M: Model>(rec: M)
    ensures
        !contains_id(Seq::<M>::empty(), rec.spec_id()),
{
}

} // verus!

