use vstd::prelude::*;

use crate::key::IdempotencyKey;
use crate::snapshot::{ResponseSnapshot, SnapshotView};

verus! {

/// Where a record lives in the store: the acting principal and the key.
pub type RecordKey = (u128, Seq<char>);

/// The abstract content of a saved-request record.
///
/// A record without a response is still being processed; a record with one
/// is completed.
pub struct StoredView {
    pub response: Option<SnapshotView>,
    pub created_at: u64,
}

/// The abstract state of the whole store.
pub type StoreView = Map<RecordKey, StoredView>;

/// What a claim attempt tells its caller, abstractly.
pub enum ActionView {
    StartProcessing,
    ReturnSavedResponse(SnapshotView),
    ProcessingInProgress,
}

/// The store was asked to complete a claim that it cannot complete.
#[derive(Debug, Clone, Copy, PartialEq, Eq, Structural)]
pub enum PersistenceError {
    /// No record exists for the key: the claim was never taken.
    MissingRecord,
    /// The record already holds a response, which is never replaced.
    AlreadyCompleted,
}

/// One claim attempt against state `m`: inserts a record in processing
/// state if none exists, and otherwise reports what the record holds.
pub open spec fn claim(m: StoreView, owner_id: u128, key: Seq<char>, now: u64) -> (
    StoreView,
    ActionView,
) {
    let k = (owner_id, key);
    if !m.contains_key(k) {
        (m.insert(k, StoredView { response: None, created_at: now }), ActionView::StartProcessing)
    } else {
        match m[k].response {
            Some(s) => (m, ActionView::ReturnSavedResponse(s)),
            None => (m, ActionView::ProcessingInProgress),
        }
    }
}

/// Completing a claim: a record in processing state takes the response and
/// keeps its creation time; any other state is left as it was.
pub open spec fn complete(m: StoreView, owner_id: u128, key: Seq<char>, response: SnapshotView) -> (
    StoreView,
    Result<(), PersistenceError>,
) {
    let k = (owner_id, key);
    if !m.contains_key(k) {
        (m, Err(PersistenceError::MissingRecord))
    } else if m[k].response is Some {
        (m, Err(PersistenceError::AlreadyCompleted))
    } else {
        (
            m.insert(k, StoredView { response: Some(response), created_at: m[k].created_at }),
            Ok(()),
        )
    }
}

/// A record created at `created_at` is older than `max_age` at time `now`.
pub open spec fn expired(created_at: u64, now: u64, max_age: u64) -> bool {
    created_at + max_age < now
}

/// The creation time below which a record is expired at `now`, or `None`
/// when no creation time is old enough: a store that can delete by range
/// deletes exactly the records created before the cutoff.
pub fn expiry_cutoff(now: u64, max_age: u64) -> (r: Option<u64>)
    ensures
        r is None <==> forall|t: u64| !#[trigger] expired(t, now, max_age),
        r matches Some(c) ==> forall|t: u64| #[trigger] expired(t, now, max_age) <==> t < c,
{
    if max_age < now {
        proof {
            assert(expired(0, now, max_age));
        }
        Some(now - max_age)
    } else {
        proof {
            assert(!expired(0, now, max_age));
        }
        None
    }
}

/// The records that survive a sweep at `now`, whatever their state.
pub open spec fn sweep(m: StoreView, now: u64, max_age: u64) -> StoreView {
    m.restrict(m.dom().filter(|k: RecordKey| !expired(m[k].created_at, now, max_age)))
}

/// The executable form of a claim outcome.
#[derive(Debug)]
pub enum NextAction {
    /// The caller holds the sole right to run the protected handler.
    StartProcessing,
    /// Another caller completed this key: replay this response unchanged.
    ReturnSavedResponse(ResponseSnapshot),
    /// Another caller holds the claim and has not completed it yet.
    ProcessingInProgress,
}

impl View for NextAction {
    type V = ActionView;

    open spec fn view(&self) -> ActionView {
        match self {
            NextAction::StartProcessing => ActionView::StartProcessing,
            NextAction::ReturnSavedResponse(s) => ActionView::ReturnSavedResponse(s@),
            NextAction::ProcessingInProgress => ActionView::ProcessingInProgress,
        }
    }
}

/// One stored row.
#[derive(Debug)]
struct SavedRecord {
    owner_id: u128,
    key: IdempotencyKey,
    response: Option<ResponseSnapshot>,
    created_at: u64,
}

spec fn rkey(r: SavedRecord) -> RecordKey {
    (r.owner_id, r.key@)
}

spec fn rstored(r: SavedRecord) -> StoredView {
    StoredView {
        response: match r.response {
            Some(s) => Some(s@),
            None => None,
        },
        created_at: r.created_at,
    }
}

spec fn unique(s: Seq<SavedRecord>) -> bool {
    forall|i: int, j: int|
        0 <= i < s.len() && 0 <= j < s.len() && i != j ==> #[trigger] rkey(s[i]) != #[trigger] rkey(
            s[j],
        )
}

spec fn to_map(s: Seq<SavedRecord>) -> StoreView
    decreases s.len(),
{
    if s.len() == 0 {
        Map::empty()
    } else {
        to_map(s.drop_last()).insert(rkey(s.last()), rstored(s.last()))
    }
}

proof fn lemma_unique_prefix(s: Seq<SavedRecord>)
    requires
        s.len() > 0,
        unique(s),
    ensures
        unique(s.drop_last()),
{
    let t = s.drop_last();
    assert forall|i: int, j: int|
        0 <= i < t.len() && 0 <= j < t.len() && i != j implies #[trigger] rkey(t[i]) != #[trigger] rkey(
            t[j],
        ) by {
        assert(t[i] == s[i] && t[j] == s[j]);
    }
}

/// Every key in the map comes from some record.
proof fn lemma_to_map_source(s: Seq<SavedRecord>, k: RecordKey)
    requires
        to_map(s).contains_key(k),
    ensures
        exists|i: int| 0 <= i < s.len() && rkey(s[i]) == k,
    decreases s.len(),
{
    if rkey(s.last()) != k {
        lemma_to_map_source(s.drop_last(), k);
        let i = choose|i: int| 0 <= i < s.drop_last().len() && rkey(s.drop_last()[i]) == k;
        assert(s[i] == s.drop_last()[i]);
    }
}

/// Every record is found in the map under its key.
proof fn lemma_to_map_has(s: Seq<SavedRecord>, i: int)
    requires
        unique(s),
        0 <= i < s.len(),
    ensures
        to_map(s).contains_key(rkey(s[i])),
        to_map(s)[rkey(s[i])] == rstored(s[i]),
    decreases s.len(),
{
    if i != s.len() - 1 {
        lemma_unique_prefix(s);
        lemma_to_map_has(s.drop_last(), i);
        assert(s.drop_last()[i] == s[i]);
        assert(rkey(s[i]) != rkey(s[s.len() - 1]));
    }
}

/// A key that no record holds is absent from the map.
proof fn lemma_to_map_absent(s: Seq<SavedRecord>, k: RecordKey)
    requires
        forall|i: int| 0 <= i < s.len() ==> rkey(#[trigger] s[i]) != k,
    ensures
        !to_map(s).contains_key(k),
{
    if to_map(s).contains_key(k) {
        lemma_to_map_source(s, k);
    }
}

proof fn lemma_to_map_len(s: Seq<SavedRecord>)
    requires
        unique(s),
    ensures
        to_map(s).dom().finite(),
        to_map(s).dom().len() == s.len(),
    decreases s.len(),
{
    if s.len() > 0 {
        lemma_unique_prefix(s);
        lemma_to_map_len(s.drop_last());
        assert forall|i: int| 0 <= i < s.drop_last().len() implies rkey(
            #[trigger] s.drop_last()[i],
        ) != rkey(s.last()) by {
            assert(s.drop_last()[i] == s[i]);
            assert(rkey(s[i]) != rkey(s[s.len() - 1]));
        }
        lemma_to_map_absent(s.drop_last(), rkey(s.last()));
    }
}

proof fn lemma_to_map_push(s: Seq<SavedRecord>, r: SavedRecord)
    ensures
        to_map(s.push(r)) == to_map(s).insert(rkey(r), rstored(r)),
{
    assert(s.push(r).drop_last() =~= s);
}

proof fn lemma_to_map_update(s: Seq<SavedRecord>, i: int, r: SavedRecord)
    requires
        unique(s),
        0 <= i < s.len(),
        rkey(r) == rkey(s[i]),
    ensures
        unique(s.update(i, r)),
        to_map(s.update(i, r)) =~= to_map(s).insert(rkey(r), rstored(r)),
    decreases s.len(),
{
    let t = s.update(i, r);
    assert forall|a: int, b: int|
        0 <= a < t.len() && 0 <= b < t.len() && a != b implies #[trigger] rkey(t[a]) != #[trigger] rkey(
            t[b],
        ) by {
        assert(rkey(t[a]) == rkey(s[a]));
        assert(rkey(t[b]) == rkey(s[b]));
    }
    if i == s.len() - 1 {
        assert(t.drop_last() =~= s.drop_last());
    } else {
        lemma_unique_prefix(s);
        lemma_to_map_update(s.drop_last(), i, r);
        assert(t.drop_last() =~= s.drop_last().update(i, r));
        assert(rkey(s[i]) != rkey(s[s.len() - 1]));
    }
}

proof fn lemma_to_map_remove(s: Seq<SavedRecord>, i: int)
    requires
        unique(s),
        0 <= i < s.len(),
    ensures
        unique(s.remove(i)),
        to_map(s.remove(i)) =~= to_map(s).remove(rkey(s[i])),
    decreases s.len(),
{
    let t = s.remove(i);
    assert forall|a: int, b: int|
        0 <= a < t.len() && 0 <= b < t.len() && a != b implies #[trigger] rkey(t[a]) != #[trigger] rkey(
            t[b],
        ) by {
        let a0 = if a < i { a } else { a + 1 };
        let b0 = if b < i { b } else { b + 1 };
        assert(t[a] == s[a0]);
        assert(t[b] == s[b0]);
    }
    lemma_unique_prefix(s);
    if i == s.len() - 1 {
        assert(t =~= s.drop_last());
        assert forall|j: int| 0 <= j < s.drop_last().len() implies rkey(
            #[trigger] s.drop_last()[j],
        ) != rkey(s.last()) by {
            assert(s.drop_last()[j] == s[j]);
            assert(rkey(s[j]) != rkey(s[s.len() - 1]));
        }
        lemma_to_map_absent(s.drop_last(), rkey(s.last()));
    } else {
        lemma_to_map_remove(s.drop_last(), i);
        assert(t.drop_last() =~= s.drop_last().remove(i));
        assert(t.last() == s.last());
        assert(rkey(s[i]) != rkey(s[s.len() - 1]));
    }
}

/// The saved-response store: one record per `(owner, key)`.
///
/// Each operation on it is a single atomic step, which is what makes the
/// existence of a processing record act as the lock on its key.
pub struct ResponseStore {
    records: Vec<SavedRecord>,
}

impl View for ResponseStore {
    type V = StoreView;

    closed spec fn view(&self) -> StoreView {
        to_map(self.records@)
    }
}

impl ResponseStore {
    /// Well-formedness: no two records share an `(owner, key)`.
    pub closed spec fn wf(&self) -> bool {
        unique(self.records@)
    }

    /// An empty store.
    pub fn new() -> (r: ResponseStore)
        ensures
            r.wf(),
            r@ == Map::<RecordKey, StoredView>::empty(),
    {
        ResponseStore { records: Vec::new() }
    }

    /// The number of records held, in either state.
    pub fn len(&self) -> (r: usize)
        requires
            self.wf(),
        ensures
            self@.dom().finite(),
            r == self@.dom().len(),
    {
        proof {
            lemma_to_map_len(self.records@);
        }
        self.records.len()
    }

    fn find(&self, owner_id: u128, key: &IdempotencyKey) -> (r: Option<usize>)
        requires
            self.wf(),
        ensures
            r matches Some(i) ==> i < self.records@.len() && rkey(self.records@[i as int]) == (
                owner_id,
                key@,
            ),
            r is None ==> !self@.contains_key((owner_id, key@)),
    {
        let mut i: usize = 0;
        while i < self.records.len()
            invariant
                i <= self.records@.len(),
                forall|j: int| 0 <= j < i ==> rkey(#[trigger] self.records@[j]) != (owner_id, key@),
            decreases self.records@.len() - i,
        {
            let rec = &self.records[i];
            if rec.owner_id == owner_id && rec.key.same_as(key) {
                return Some(i);
            }
            i = i + 1;
        }
        proof {
            lemma_to_map_absent(self.records@, (owner_id, key@));
        }
        None
    }

    /// The recorded response for `(owner_id, key)`, if the record is completed.
    pub fn get_saved_response(&self, owner_id: u128, key: &IdempotencyKey) -> (r: Option<
        ResponseSnapshot,
    >)
        requires
            self.wf(),
        ensures
            r is Some <==> self@.contains_key((owner_id, key@)) && self@[(
                owner_id,
                key@,
            )].response is Some,
            r matches Some(s) ==> self@[(owner_id, key@)].response == Some(s@),
    {
        match self.find(owner_id, key) {
            None => None,
            Some(i) => {
                proof {
                    lemma_to_map_has(self.records@, i as int);
                }
                match &self.records[i].response {
                    Some(s) => Some(s.duplicate()),
                    None => None,
                }
            },
        }
    }

    /// Attempts to claim `(owner_id, key)` at time `now`.
    ///
    /// Inserting the processing record when no record exists is the only way
    /// to receive `StartProcessing`; otherwise the existing record decides.
    pub fn try_start_processing(&mut self, owner_id: u128, key: &IdempotencyKey, now: u64) -> (r:
        NextAction)
        requires
            old(self).wf(),
        ensures
            final(self).wf(),
            (final(self)@, r@) == claim(old(self)@, owner_id, key@, now),
    {
        match self.find(owner_id, key) {
            None => {
                let rec = SavedRecord {
                    owner_id,
                    key: key.duplicate(),
                    response: None,
                    created_at: now,
                };
                proof {
                    lemma_to_map_push(self.records@, rec);
                    assert forall|j: int| 0 <= j < self.records@.len() implies rkey(
                        #[trigger] self.records@[j],
                    ) != rkey(rec) by {
                        if rkey(self.records@[j]) == rkey(rec) {
                            lemma_to_map_has(self.records@, j);
                        }
                    }
                }
                self.records.push(rec);
                proof {
                    let s = self.records@;
                    assert forall|a: int, b: int|
                        0 <= a < s.len() && 0 <= b < s.len() && a != b implies #[trigger] rkey(
                            s[a],
                        ) != #[trigger] rkey(s[b]) by {
                        if a < s.len() - 1 && b < s.len() - 1 {
                            assert(s[a] == old(self).records@[a]);
                            assert(s[b] == old(self).records@[b]);
                        } else if a < s.len() - 1 {
                            assert(s[a] == old(self).records@[a]);
                        } else {
                            assert(s[b] == old(self).records@[b]);
                        }
                    }
                }
                NextAction::StartProcessing
            },
            Some(i) => {
                proof {
                    lemma_to_map_has(self.records@, i as int);
                }
                match &self.records[i].response {
                    Some(s) => NextAction::ReturnSavedResponse(s.duplicate()),
                    None => NextAction::ProcessingInProgress,
                }
            },
        }
    }

    /// Completes the claim on `(owner_id, key)` with `response`.
    ///
    /// Succeeds exactly when the record exists and is still processing.
    pub fn save_response(
        &mut self,
        owner_id: u128,
        key: &IdempotencyKey,
        response: ResponseSnapshot,
    ) -> (r: Result<(), PersistenceError>)
        requires
            old(self).wf(),
        ensures
            final(self).wf(),
            (final(self)@, r) == complete(old(self)@, owner_id, key@, response@),
    {
        match self.find(owner_id, key) {
            None => Err(PersistenceError::MissingRecord),
            Some(i) => {
                proof {
                    lemma_to_map_has(self.records@, i as int);
                }
                if self.records[i].response.is_some() {
                    return Err(PersistenceError::AlreadyCompleted);
                }
                let created_at = self.records[i].created_at;
                let rec = SavedRecord {
                    owner_id,
                    key: key.duplicate(),
                    response: Some(response),
                    created_at,
                };
                proof {
                    lemma_to_map_update(self.records@, i as int, rec);
                }
                self.records.set(i, rec);
                Ok(())
            },
        }
    }

    /// Deletes every record, in either state, that is older than `max_age`
    /// at time `now`, and returns how many were deleted.
    pub fn delete_expired(&mut self, now: u64, max_age: u64) -> (r: usize)
        requires
            old(self).wf(),
        ensures
            final(self).wf(),
            final(self)@ == sweep(old(self)@, now, max_age),
            old(self)@.dom().finite(),
            r == old(self)@.dom().len() - final(self)@.dom().len(),
    {
        let ghost m0 = self@;
        proof {
            lemma_to_map_len(self.records@);
        }
        let n0: usize = self.records.len();
        let mut deleted: usize = 0;
        let mut i: usize = 0;
        while i < self.records.len()
            invariant
                unique(self.records@),
                i <= self.records@.len(),
                deleted + self.records@.len() == m0.dom().len(),
                m0.dom().len() == n0,
                forall|k: RecordKey| #[trigger]
                    to_map(self.records@).contains_key(k) ==> m0.contains_key(k) && to_map(
                        self.records@,
                    )[k] == m0[k],
                forall|k: RecordKey| #[trigger]
                    m0.contains_key(k) && !expired(m0[k].created_at, now, max_age)
                        ==> to_map(self.records@).contains_key(k),
                forall|j: int|
                    0 <= j < i ==> !expired(#[trigger] self.records@[j].created_at, now, max_age),
            decreases self.records@.len() - i,
        {
            let created_at = self.records[i].created_at;
            if created_at < now && now - created_at > max_age {
                proof {
                    lemma_to_map_has(self.records@, i as int);
                    lemma_to_map_remove(self.records@, i as int);
                }
                let _gone = self.records.remove(i);
                deleted = deleted + 1;
            } else {
                i = i + 1;
            }
        }
        proof {
            let m1 = to_map(self.records@);
            let sw = sweep(m0, now, max_age);
            assert forall|k: RecordKey| m1.contains_key(k) implies !expired(
                m0[k].created_at,
                now,
                max_age,
            ) by {
                lemma_to_map_source(self.records@, k);
                let j = choose|j: int| 0 <= j < self.records@.len() && rkey(self.records@[j]) == k;
                lemma_to_map_has(self.records@, j);
            }
            assert(m1 =~= sw);
            lemma_to_map_len(self.records@);
        }
        deleted
    }
}

} // verus!
