use vstd::prelude::*;

use crate::snapshot::SnapshotView;
use crate::store::{claim, complete, expired, sweep, ActionView, RecordKey, StoreView};

verus! {

/// An operation on one `(owner, key)`, made by any caller: a claim attempt
/// at some time, or a completion with some response.
pub enum KeyOp {
    Claim(u64),
    Complete(SnapshotView),
}

/// The store after one operation on `(owner_id, key)`.
pub open spec fn apply(m: StoreView, owner_id: u128, key: Seq<char>, op: KeyOp) -> StoreView {
    match op {
        KeyOp::Claim(now) => claim(m, owner_id, key, now).0,
        KeyOp::Complete(s) => complete(m, owner_id, key, s).0,
    }
}

/// What each claim attempt in `ops` receives, in order, when the operations
/// reach the store one at a time starting from `m`.
pub open spec fn claim_outcomes(m: StoreView, owner_id: u128, key: Seq<char>, ops: Seq<KeyOp>) -> Seq<
    ActionView,
>
    decreases ops.len(),
{
    if ops.len() == 0 {
        Seq::empty()
    } else {
        let rest = claim_outcomes(apply(m, owner_id, key, ops[0]), owner_id, key, ops.drop_first());
        match ops[0] {
            KeyOp::Claim(now) => seq![claim(m, owner_id, key, now).1] + rest,
            KeyOp::Complete(_) => rest,
        }
    }
}

/// How many outcomes grant the claim.
pub open spec fn count_starts(s: Seq<ActionView>) -> nat
    decreases s.len(),
{
    if s.len() == 0 {
        0
    } else {
        (if s[0] is StartProcessing {
            1nat
        } else {
            0nat
        }) + count_starts(s.drop_first())
    }
}

/// `ops` holds at least one claim attempt.
pub open spec fn has_claim(ops: Seq<KeyOp>) -> bool {
    exists|i: int| 0 <= i < ops.len() && #[trigger] ops[i] is Claim
}

proof fn lemma_count_prepend(a: ActionView, rest: Seq<ActionView>)
    ensures
        count_starts(seq![a] + rest) == (if a is StartProcessing {
            1nat
        } else {
            0nat
        }) + count_starts(rest),
{
    assert((seq![a] + rest).drop_first() =~= rest);
}

/// Once a record exists for the key, no operation on the key removes it,
/// and no claim attempt is granted.
proof fn lemma_no_start_when_present(m: StoreView, owner_id: u128, key: Seq<char>, ops: Seq<KeyOp>)
    requires
        m.contains_key((owner_id, key)),
    ensures
        count_starts(claim_outcomes(m, owner_id, key, ops)) == 0,
    decreases ops.len(),
{
    if ops.len() > 0 {
        let m1 = apply(m, owner_id, key, ops[0]);
        lemma_no_start_when_present(m1, owner_id, key, ops.drop_first());
        if let KeyOp::Claim(now) = ops[0] {
            lemma_count_prepend(
                claim(m, owner_id, key, now).1,
                claim_outcomes(m1, owner_id, key, ops.drop_first()),
            );
        }
    }
}

/// Uniqueness of the claim: for any sequence of claim attempts and
/// completions on one `(owner, key)`, exactly one attempt is granted when
/// the key had no record and at least one attempt is made, and none is
/// granted otherwise.
pub proof fn lemma_claim_granted_once(
    m: StoreView,
    owner_id: u128,
    key: Seq<char>,
    ops: Seq<KeyOp>,
)
    ensures
        count_starts(claim_outcomes(m, owner_id, key, ops)) == (if !m.contains_key((owner_id, key))
            && has_claim(ops) {
            1nat
        } else {
            0nat
        }),
    decreases ops.len(),
{
    if m.contains_key((owner_id, key)) {
        lemma_no_start_when_present(m, owner_id, key, ops);
    } else if ops.len() == 0 {
    } else {
        let m1 = apply(m, owner_id, key, ops[0]);
        let tail = ops.drop_first();
        match ops[0] {
            KeyOp::Claim(now) => {
                lemma_no_start_when_present(m1, owner_id, key, tail);
                lemma_count_prepend(
                    claim(m, owner_id, key, now).1,
                    claim_outcomes(m1, owner_id, key, tail),
                );
                assert(ops[0] is Claim);
            },
            KeyOp::Complete(_) => {
                lemma_claim_granted_once(m1, owner_id, key, tail);
                if has_claim(ops) {
                    let i = choose|i: int| 0 <= i < ops.len() && #[trigger] ops[i] is Claim;
                    assert(tail[i - 1] == ops[i]);
                } else {
                    assert forall|i: int| 0 <= i < tail.len() implies !(#[trigger] tail[i] is Claim) by {
                        assert(tail[i] == ops[i + 1]);
                    }
                }
            },
        }
    }
}

proof fn lemma_completed_stays(
    m: StoreView,
    owner_id: u128,
    key: Seq<char>,
    snap: SnapshotView,
    ops: Seq<KeyOp>,
)
    requires
        m.contains_key((owner_id, key)),
        m[(owner_id, key)].response == Some(snap),
    ensures
        forall|i: int|
            0 <= i < claim_outcomes(m, owner_id, key, ops).len() ==> #[trigger] claim_outcomes(
                m,
                owner_id,
                key,
                ops,
            )[i] == ActionView::ReturnSavedResponse(snap),
    decreases ops.len(),
{
    if ops.len() > 0 {
        lemma_completed_stays(apply(m, owner_id, key, ops[0]), owner_id, key, snap, ops.drop_first());
    }
}

/// Replay fidelity: when a granted claim is completed with `snap`, the
/// completion succeeds, and every later claim attempt on the key, whatever
/// else is tried on it meanwhile, receives `snap` unchanged.
pub proof fn lemma_replay_fidelity(
    m: StoreView,
    owner_id: u128,
    key: Seq<char>,
    now: u64,
    snap: SnapshotView,
    ops: Seq<KeyOp>,
)
    requires
        claim(m, owner_id, key, now).1 is StartProcessing,
    ensures
        complete(claim(m, owner_id, key, now).0, owner_id, key, snap).1 is Ok,
        forall|i: int|
            0 <= i < claim_outcomes(
                complete(claim(m, owner_id, key, now).0, owner_id, key, snap).0,
                owner_id,
                key,
                ops,
            ).len() ==> #[trigger] claim_outcomes(
                complete(claim(m, owner_id, key, now).0, owner_id, key, snap).0,
                owner_id,
                key,
                ops,
            )[i] == ActionView::ReturnSavedResponse(snap),
{
    let m2 = complete(claim(m, owner_id, key, now).0, owner_id, key, snap).0;
    lemma_completed_stays(m2, owner_id, key, snap, ops);
}

proof fn lemma_processing_stays(m: StoreView, owner_id: u128, key: Seq<char>, ops: Seq<KeyOp>)
    requires
        m.contains_key((owner_id, key)),
        m[(owner_id, key)].response is None,
        forall|i: int| 0 <= i < ops.len() ==> #[trigger] ops[i] is Claim,
    ensures
        forall|i: int|
            0 <= i < claim_outcomes(m, owner_id, key, ops).len() ==> #[trigger] claim_outcomes(
                m,
                owner_id,
                key,
                ops,
            )[i] == ActionView::ProcessingInProgress,
    decreases ops.len(),
{
    if ops.len() > 0 {
        let tail = ops.drop_first();
        assert forall|i: int| 0 <= i < tail.len() implies #[trigger] tail[i] is Claim by {
            assert(tail[i] == ops[i + 1]);
        }
        assert(ops[0] is Claim);
        lemma_processing_stays(apply(m, owner_id, key, ops[0]), owner_id, key, tail);
    }
}

/// An abandoned claim: when a granted claim is never completed, every later
/// claim attempt on the key is told that processing is in progress, and the
/// record survives each sweep until it is older than the sweep's `max_age`.
pub proof fn lemma_abandoned_claim(
    m: StoreView,
    owner_id: u128,
    key: Seq<char>,
    now: u64,
    attempts: Seq<KeyOp>,
    later: u64,
    max_age: u64,
)
    requires
        claim(m, owner_id, key, now).1 is StartProcessing,
        forall|i: int| 0 <= i < attempts.len() ==> #[trigger] attempts[i] is Claim,
    ensures
        forall|i: int|
            0 <= i < claim_outcomes(claim(m, owner_id, key, now).0, owner_id, key, attempts).len()
                ==> #[trigger] claim_outcomes(
                claim(m, owner_id, key, now).0,
                owner_id,
                key,
                attempts,
            )[i] == ActionView::ProcessingInProgress,
        sweep(claim(m, owner_id, key, now).0, later, max_age).contains_key((owner_id, key)) <==> !expired(
            now,
            later,
            max_age,
        ),
{
    lemma_processing_stays(claim(m, owner_id, key, now).0, owner_id, key, attempts);
}

/// Independence of keys: claiming or completing another `(owner, key)`
/// leaves the record of `k` as it was, present or absent, so operations on
/// different keys can interleave freely with those on `k`.
pub proof fn lemma_other_keys_untouched(
    m: StoreView,
    k: RecordKey,
    owner_id: u128,
    key: Seq<char>,
    op: KeyOp,
)
    requires
        k != (owner_id, key),
    ensures
        apply(m, owner_id, key, op).contains_key(k) == m.contains_key(k),
        m.contains_key(k) ==> apply(m, owner_id, key, op)[k] == m[k],
{
}

/// Expiry: a sweep at `now` removes a record created more than `max_age`
/// before `now` and keeps, unchanged, one created at `now - max_age` or later.
/// In particular one second too old is removed and one second young enough
/// is kept.
pub proof fn lemma_expiry_boundary(m: StoreView, k: RecordKey, now: u64, max_age: u64)
    requires
        m.contains_key(k),
    ensures
        sweep(m, now, max_age).contains_key(k) <==> m[k].created_at + max_age >= now,
        sweep(m, now, max_age).contains_key(k) ==> sweep(m, now, max_age)[k] == m[k],
        m[k].created_at + max_age + 1 == now ==> !sweep(m, now, max_age).contains_key(k),
        m[k].created_at + max_age == now + 1 ==> sweep(m, now, max_age).contains_key(k),
{
}

} // verus!
