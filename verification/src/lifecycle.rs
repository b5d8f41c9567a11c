//! What holds of an appliance over its whole life: the invariant that every operation keeps, and
//! what follows from it for the releases that leave the appliance.
//!
//! The laws are stated over the relations that the operations' contracts state, so each speaks of
//! any run of the operations.
use crate::accept::{accept_spec, lemma_accepts_iff_acceptable, VerifierContextView};
use crate::appliance::{
    marked, plan_spec, reemit, ActiveView, ApplianceError, ApplianceView, CommittedRecordView,
    PreparedRecordView, RecordView, RecoverOutcome, RecoveryPlan, Status,
};
use crate::root_advance::{
    transition_digest_spec, witness_key_spec, OfflineReleaseView, TransitionView,
};
use crate::tropic::{get_done, update_done, Tropic, TropicError, WitnessSig};
use vstd::prelude::*;

verus! {

impl<T: Tropic, S: WitnessSig> ApplianceView<T, S> {
    /// A prepared record that the witness output `w` leads to, for an advance of the active root.
    pub open spec fn witnessed_by(&self, p: PreparedRecordView, w: Seq<u8>) -> bool {
        &&& w.len() == 32
        &&& p == self.witnessed_spec(
            p.txn,
            transition_digest_spec(p.txn),
            self.input_spec(p.txn, p.receiver_challenge),
            p.receiver_challenge,
            w,
        )
        &&& p.txn.prev_root == self.active.root@
        &&& p.txn.next_anchor_counter == p.txn.anchor_counter + 1
    }

    /// A committed record that holds the release of such a record, by a step from the counter value
    /// `h`.
    pub open spec fn released_by(
        &self,
        c: CommittedRecordView,
        p: PreparedRecordView,
        w: Seq<u8>,
        h: u32,
    ) -> bool {
        &&& self.witnessed_by(p, w)
        &&& h > 0
        &&& h + p.txn.anchor_counter == self.h0
        &&& c.prev_root == p.txn.prev_root
        &&& c.next_root == p.txn.next_root
        &&& c.anchor_counter == p.txn.anchor_counter
        &&& c.next_anchor_counter == p.txn.next_anchor_counter
        &&& c.release == self.release_spec(p, h)
    }

    /// The invariant: the active index is never ahead of the counter, the record is what the
    /// status says, and it holds what the chip's own witness led to.
    pub open spec fn coherent(&self) -> bool {
        &&& self.tropic.counter() + self.active.u <= self.h0
        &&& match self.active.record@ {
            RecordView::Empty => self.active.status == Status::Ready,
            RecordView::Prepared(p) => {
                &&& self.active.status == Status::Prepared
                &&& p.txn.anchor_counter == self.active.u
                &&& exists|w: Seq<u8>| #[trigger] self.witnessed_by(p, w)
            },
            RecordView::Committed(c) => {
                &&& self.active.status == Status::Committed
                &&& self.active.u == if c.committed {
                    c.next_anchor_counter
                } else {
                    c.anchor_counter
                }
                &&& exists|p: PreparedRecordView, w: Seq<u8>, h: u32| #[trigger]
                    self.released_by(c, p, w, h)
            },
        }
    }
}

/// An appliance that is ready at index zero, with a counter that was enrolled at its own value or
/// above, keeps the invariant.
pub proof fn lemma_new_is_coherent<T: Tropic, S: WitnessSig>(app: ApplianceView<T, S>)
    requires
        app.active@ == (ActiveView {
            root: app.active.root@,
            u: 0,
            status: Status::Ready,
            record: RecordView::Empty,
        }),
        app.tropic.counter() <= app.h0,
    ensures
        app.coherent(),
{
}

/// Whatever the chip replies, `prepare` keeps the invariant.
pub proof fn lemma_prepare_keeps_coherence<T: Tropic, S: WitnessSig>(
    before: ApplianceView<T, S>,
    t: TransitionView,
    challenge: Seq<u8>,
    after: ApplianceView<T, S>,
    result: Result<(), ApplianceError>,
)
    requires
        before.coherent(),
        before.prepare_spec(t, challenge, &after, result),
    ensures
        after.coherent(),
{
    if result is Ok {
        let w = choose|w: [u8; 32]|
            after.active@ == #[trigger] before.prepared_spec(t, challenge, w@);
        let p = after.active.record@->Prepared_0;
        assert(after.witnessed_by(p, w@));
    }
}

/// Whatever the chip replies, the first phase of a commit keeps the invariant.
pub proof fn lemma_sign_candidate_keeps_coherence<T: Tropic, S: WitnessSig>(
    before: ApplianceView<T, S>,
    after: ApplianceView<T, S>,
    result: Result<(), ApplianceError>,
)
    requires
        before.coherent(),
        before.sign_candidate_spec(&after, result),
    ensures
        after.coherent(),
{
    if before.commit_refusal() is None {
        let p = before.active.record@->Prepared_0;
        let w = choose|w: Seq<u8>| #[trigger] before.witnessed_by(p, w);
        assert(after.witnessed_by(p, w));
        if let RecordView::Committed(c) = after.active.record@ {
            let h = choose|h: u32|
                {
                    &&& h > 0
                    &&& h + p.txn.anchor_counter == before.h0
                    &&& c.release == #[trigger] before.release_spec(p, h)
                };
            assert(after.released_by(c, p, w, h));
        }
    }
}

/// Whatever the chip replies, the counter step of a commit keeps the invariant.
pub proof fn lemma_step_counter_keeps_coherence<T: Tropic, S: WitnessSig>(
    before: ApplianceView<T, S>,
    after: ApplianceView<T, S>,
    result: Result<(), ApplianceError>,
)
    requires
        before.coherent(),
        before.step_counter_spec(&after, result),
    ensures
        after.coherent(),
{
    if let RecordView::Committed(c) = before.active.record@ {
        let (p, w, h) = choose|p: PreparedRecordView, w: Seq<u8>, h: u32| #[trigger]
            before.released_by(c, p, w, h);
        assert(after.witnessed_by(p, w));
        assert(after.released_by(after.active.record@->Committed_0, p, w, h));
    }
}

/// Whatever the chip replies, `commit` keeps the invariant.
pub proof fn lemma_commit_keeps_coherence<T: Tropic, S: WitnessSig>(
    before: ApplianceView<T, S>,
    after: ApplianceView<T, S>,
    result: Result<(), ApplianceError>,
)
    requires
        before.coherent(),
        before.commit_spec(&after, result),
    ensures
        after.coherent(),
{
    if before.commit_refusal() is None {
        let p = before.active.record@->Prepared_0;
        let w = choose|w: Seq<u8>| #[trigger] before.witnessed_by(p, w);
        assert(after.witnessed_by(p, w));
        if let RecordView::Committed(c) = after.active.record@ {
            let h = choose|h: u32|
                {
                    &&& h > 0
                    &&& h + p.txn.anchor_counter == before.h0
                    &&& c.release == #[trigger] before.release_spec(p, h)
                };
            assert(after.released_by(c, p, w, h));
        }
    }
}

/// Whatever the chip replies, `finalize` keeps the invariant.
pub proof fn lemma_finalize_keeps_coherence<T: Tropic, S: WitnessSig>(
    before: ApplianceView<T, S>,
    after: ApplianceView<T, S>,
    result: Result<[u8; 32], ApplianceError>,
)
    requires
        before.coherent(),
        before.finalize_spec(&after, result),
    ensures
        after.coherent(),
{
    if let RecordView::Committed(c) = after.active.record@ {
        let (p, w, h) = choose|p: PreparedRecordView, w: Seq<u8>, h: u32| #[trigger]
            before.released_by(c, p, w, h);
        assert(after.witnessed_by(p, w));
        assert(after.released_by(c, p, w, h));
    }
}

/// Cancelling keeps the invariant.
pub proof fn lemma_cancel_keeps_coherence<T: Tropic, S: WitnessSig>(
    before: ApplianceView<T, S>,
    after: ApplianceView<T, S>,
    result: Result<(), ApplianceError>,
)
    requires
        before.coherent(),
        before.cancel_spec(&after, result),
    ensures
        after.coherent(),
{
    if let RecordView::Committed(c) = after.active.record@ {
        let (p, w, h) = choose|p: PreparedRecordView, w: Seq<u8>, h: u32| #[trigger]
            before.released_by(c, p, w, h);
        assert(after.witnessed_by(p, w));
        assert(after.released_by(c, p, w, h));
    }
}

/// Whatever the chip replies, recovery keeps the invariant.
pub proof fn lemma_recover_keeps_coherence<T: Tropic, S: WitnessSig>(
    before: ApplianceView<T, S>,
    after: ApplianceView<T, S>,
    outcome: RecoverOutcome,
)
    requires
        before.coherent(),
        before.recover_spec(&after, outcome),
    ensures
        after.coherent(),
{
    match before.active.record@ {
        RecordView::Committed(c) => {
            let (p, w, h) = choose|p: PreparedRecordView, w: Seq<u8>, h: u32| #[trigger]
                before.released_by(c, p, w, h);
            assert(after.witnessed_by(p, w));
            assert(after.released_by(after.active.record@->Committed_0, p, w, h));
        },
        RecordView::Prepared(p) => {
            let w = choose|w: Seq<u8>| #[trigger] before.witnessed_by(p, w);
            assert(after.witnessed_by(p, w));
        },
        RecordView::Empty => {},
    }
}

/// A successful commit moves the counter exactly to the value that proves its step, and what it
/// has signed becomes the release for export.
pub proof fn lemma_commit_moves_the_counter<T: Tropic, S: WitnessSig>(
    before: ApplianceView<T, S>,
    after: ApplianceView<T, S>,
    result: Result<(), ApplianceError>,
)
    requires
        before.coherent(),
        before.commit_spec(&after, result),
        result is Ok,
    ensures
        before.active.record@ is Prepared,
        after.active.u == before.active.u + 1,
        after.tropic.counter() + after.active.u == after.h0,
        after.tropic.counter() < before.tropic.counter(),
        after.exported() matches Some(rel)
            && rel.transition == before.active.record@->Prepared_0.txn,
{
}

/// A witness key signs once: a commit that has signed, whether or not its counter step succeeded,
/// leaves no key behind, and another commit is refused.
pub proof fn lemma_key_signs_once<T: Tropic, S: WitnessSig>(
    before: ApplianceView<T, S>,
    after: ApplianceView<T, S>,
    result: Result<(), ApplianceError>,
)
    requires
        before.commit_spec(&after, result),
        after.active.record@ != before.active.record@,
    ensures
        after.active.record@ is Committed,
        after.commit_refusal() == Some(ApplianceError::WrongState),
{
}

/// Nothing is exported before the counter has moved for it: while a release can be exported, the
/// counter stands at the value that proves its step, or below.
pub proof fn lemma_export_follows_the_counter<T: Tropic, S: WitnessSig>(
    app: ApplianceView<T, S>,
    rel: OfflineReleaseView,
)
    requires
        app.coherent(),
        app.exported() == Some(rel),
    ensures
        app.tropic.counter() + rel.transition.next_anchor_counter <= app.h0,
{
    let c = app.active.record@->Committed_0;
    let (p, w, h) = choose|p: PreparedRecordView, w: Seq<u8>, h: u32| #[trigger]
        app.released_by(c, p, w, h);
    assert(app.witnessed_by(p, w));
}

/// What an appliance exports, an honest receiver accepts: one that holds the same parent root,
/// pinned this anchor, supplied this challenge, and reads from the chip the counter value that
/// proves the step.
pub proof fn lemma_export_is_accepted<T: Tropic, S: WitnessSig>(
    app: ApplianceView<T, S>,
    rel: OfflineReleaseView,
    ctx: VerifierContextView,
    attested: u64,
)
    requires
        app.coherent(),
        app.exported() == Some(rel),
        ctx.accepted_prev_root == app.active.root@,
        ctx.pinned_anchor_id == app.anchor_id@,
        ctx.expected_receiver_challenge == rel.cert.receiver_challenge,
        ctx.expected_policy_hash == rel.transition.authority_policy_hash,
        ctx.enrolled_counter == app.h0,
        ctx.exposure_cap_index >= rel.transition.next_anchor_counter,
        ctx.anchor_uncompromised,
        attested + rel.transition.next_anchor_counter == app.h0,
    ensures
        accept_spec::<S>(rel, ctx, true, true, true, Some(attested)) is Ok,
{
    let c = app.active.record@->Committed_0;
    let (p, w, h) = choose|p: PreparedRecordView, w: Seq<u8>, h: u32| #[trigger]
        app.released_by(c, p, w, h);
    let x = app.input_spec(p.txn, p.receiver_challenge);
    let k = witness_key_spec(w, x, p.txn, app.anchor_id@, app.slot);
    S::signature_verifies(k, p.cert_message);
    lemma_accepts_iff_acceptable::<S>(rel, ctx, true, true, true, Some(attested));
}

/// Directly after a commit the chip's own counter is that value: the release is accepted by a
/// receiver that reads the chip then.
pub proof fn lemma_commit_then_accept<T: Tropic, S: WitnessSig>(
    before: ApplianceView<T, S>,
    after: ApplianceView<T, S>,
    result: Result<(), ApplianceError>,
    ctx: VerifierContextView,
)
    requires
        before.coherent(),
        before.commit_spec(&after, result),
        result is Ok,
        ctx.accepted_prev_root == before.active.root@,
        ctx.pinned_anchor_id == before.anchor_id@,
        ctx.expected_receiver_challenge == before.active.record@->Prepared_0.receiver_challenge,
        ctx.expected_policy_hash
            == before.active.record@->Prepared_0.txn.authority_policy_hash,
        ctx.enrolled_counter == before.h0,
        ctx.exposure_cap_index > before.active.u,
        ctx.anchor_uncompromised,
    ensures
        after.exported() matches Some(rel) && accept_spec::<S>(
            rel,
            ctx,
            true,
            true,
            true,
            Some(after.tropic.counter() as u64),
        ) is Ok,
{
    lemma_commit_keeps_coherence(before, after, result);
    lemma_commit_moves_the_counter(before, after, result);
    lemma_export_is_accepted(after, after.exported()->0, ctx, after.tropic.counter() as u64);
}

/// An index is spent once: a later successful commit on the same chip, by whatever appliance state
/// and however many operations later, advances from a higher index.
pub proof fn lemma_index_is_spent_once<T: Tropic, S: WitnessSig>(
    first: ApplianceView<T, S>,
    first_after: ApplianceView<T, S>,
    second: ApplianceView<T, S>,
    second_after: ApplianceView<T, S>,
)
    requires
        first.commit_spec(&first_after, Ok(())),
        second.commit_spec(&second_after, Ok(())),
        second.h0 == first.h0,
        second.tropic.counter() <= first_after.tropic.counter(),
    ensures
        first.active.record@->Prepared_0.txn.anchor_counter
            < second.active.record@->Prepared_0.txn.anchor_counter,
{
}

/// Once a later commit has moved the counter on, the earlier release is no longer accepted against
/// the chip's own counter.
pub proof fn lemma_spent_release_is_stale<T: Tropic, S: WitnessSig>(
    first: ApplianceView<T, S>,
    first_after: ApplianceView<T, S>,
    second: ApplianceView<T, S>,
    second_after: ApplianceView<T, S>,
    ctx: VerifierContextView,
    commits: bool,
    proves: bool,
    delivers: bool,
)
    requires
        first.commit_spec(&first_after, Ok(())),
        second.commit_spec(&second_after, Ok(())),
        second.tropic.counter() <= first_after.tropic.counter(),
        first.active.record@->Prepared_0.txn.next_anchor_counter
            == first.active.record@->Prepared_0.txn.anchor_counter + 1,
        ctx.enrolled_counter == first.h0,
    ensures
        first_after.exported() matches Some(rel) && accept_spec::<S>(
            rel,
            ctx,
            commits,
            proves,
            delivers,
            Some(second_after.tropic.counter() as u64),
        ) is Err,
{
}

/// Cancelling undoes a preparation: the active state is the one before it.
pub proof fn lemma_cancel_undoes_prepare<T: Tropic, S: WitnessSig>(
    before: ApplianceView<T, S>,
    t: TransitionView,
    challenge: Seq<u8>,
    prepared: ApplianceView<T, S>,
    after: ApplianceView<T, S>,
    result: Result<(), ApplianceError>,
)
    requires
        before.coherent(),
        before.prepare_spec(t, challenge, &prepared, Ok(())),
        prepared.cancel_spec(&after, result),
    ensures
        result is Ok,
        after.active@ == before.active@,
        after.same_setup(&before),
{
}

/// A whole root advance: what is exported carries the prepared transition and challenge, and the
/// appliance ends ready at the next root and index.
pub proof fn lemma_advance<T: Tropic, S: WitnessSig>(
    ready: ApplianceView<T, S>,
    t: TransitionView,
    challenge: Seq<u8>,
    prepared: ApplianceView<T, S>,
    committed: ApplianceView<T, S>,
    finalized: ApplianceView<T, S>,
    root: [u8; 32],
)
    requires
        ready.coherent(),
        ready.prepare_spec(t, challenge, &prepared, Ok(())),
        prepared.commit_spec(&committed, Ok(())),
        committed.finalize_spec(&finalized, Ok(root)),
    ensures
        committed.exported() matches Some(rel) && rel.transition == t
            && rel.cert.receiver_challenge == challenge,
        root@ == t.next_root,
        finalized.active@ == (ActiveView {
            root: t.next_root,
            u: t.next_anchor_counter,
            status: Status::Ready,
            record: RecordView::Empty,
        }),
        finalized.active.u == ready.active.u + 1,
        finalized.coherent(),
{
    lemma_prepare_keeps_coherence(ready, t, challenge, prepared, Ok(()));
    lemma_commit_keeps_coherence(prepared, committed, Ok(()));
    lemma_finalize_keeps_coherence(committed, finalized, Ok(root));
}

/// Recovery never signs and never replaces a release: a committed record keeps its release and its
/// successor, and an outcome to emit again names that successor and makes that release the export.
pub proof fn lemma_recover_keeps_the_release<T: Tropic, S: WitnessSig>(
    before: ApplianceView<T, S>,
    after: ApplianceView<T, S>,
    outcome: RecoverOutcome,
    c: CommittedRecordView,
)
    requires
        before.recover_spec(&after, outcome),
        before.active.record@ == RecordView::Committed(c),
    ensures
        after.active.root == before.active.root,
        after.active.record@ matches RecordView::Committed(d) && d.release == c.release
            && d.next_root == c.next_root,
        outcome matches RecoverOutcome::ReemitCommitted(root) ==> root@ == c.next_root
            && after.exported() == Some(c.release),
{
}

/// A commit that is interrupted after its first phase is completed by recovery, whether or not the
/// counter has moved for it: if recovery reads the counter at its value before the step or after
/// it, the candidate's own release becomes the export. The one exception is a chip that fails the
/// step that is still missing, which leaves the candidate as it was.
pub proof fn lemma_interrupted_commit_is_completed<T: Tropic, S: WitnessSig>(
    before: ApplianceView<T, S>,
    signed: ApplianceView<T, S>,
    interrupted: ApplianceView<T, S>,
    h: u32,
    read: T,
    recovered: ApplianceView<T, S>,
    outcome: RecoverOutcome,
)
    requires
        before.coherent(),
        before.sign_candidate_spec(&signed, Ok(())),
        interrupted.active@ == signed.active@,
        interrupted.same_setup(&signed),
        h + before.active.u == before.h0 || h + before.active.u + 1 == before.h0,
        get_done(interrupted.tropic, Ok(h), read),
        interrupted.recover_answered(Ok(h), read, &recovered, outcome),
    ensures
        signed.active.record@ matches RecordView::Committed(c) && ({
            ||| {
                &&& recovered.exported() == Some(c.release)
                &&& outcome matches RecoverOutcome::ReemitCommitted(root) && root@ == c.next_root
                &&& recovered.active.u == before.active.u + 1
            }
            ||| {
                &&& h + before.active.u == before.h0
                &&& exists|e: TropicError| #[trigger] update_done(read, Err(e), recovered.tropic)
                &&& outcome == RecoverOutcome::DowngradeOnline
                &&& recovered.active == interrupted.active
            }
        }),
{
    let p = before.active.record@->Prepared_0;
    let w = choose|w: Seq<u8>| #[trigger] before.witnessed_by(p, w);
    let c = signed.active.record@->Committed_0;
    assert(c.next_anchor_counter == before.active.u + 1);
    assert(c.prev_root == interrupted.active.root@);
    if h + before.active.u == before.h0 {
        assert(plan_spec(interrupted.active@, before.active.u) == RecoveryPlan::StepThenMark);
        let step = choose|step: Result<(), TropicError>|
            {
                &&& #[trigger] update_done(read, step, recovered.tropic)
                &&& if step is Ok {
                    &&& outcome == reemit(interrupted.active.record)
                    &&& recovered.active@ == marked(interrupted.active@)
                } else {
                    &&& outcome == RecoverOutcome::DowngradeOnline
                    &&& recovered.active == interrupted.active
                }
            };
        if let Err(e) = step {
            assert(update_done(read, Err(e), recovered.tropic));
        }
    } else {
        assert(plan_spec(interrupted.active@, (before.active.u + 1) as u64) == RecoveryPlan::Mark);
    }
}

/// Without a committed record, recovery changes nothing but what the chip did of its own accord.
pub proof fn lemma_recover_without_commit_changes_nothing<T: Tropic, S: WitnessSig>(
    before: ApplianceView<T, S>,
    after: ApplianceView<T, S>,
    outcome: RecoverOutcome,
)
    requires
        before.recover_spec(&after, outcome),
        !(before.active.record@ is Committed),
    ensures
        after.active == before.active,
        outcome !is ReemitCommitted,
{
}

/// Recovering once more, after an outcome to emit again, leaves the active state as it is and says
/// the same, unless the chip cannot be read or has been moved past the record.
pub proof fn lemma_recover_again<T: Tropic, S: WitnessSig>(
    before: ApplianceView<T, S>,
    once: ApplianceView<T, S>,
    twice: ApplianceView<T, S>,
    root: [u8; 32],
    outcome: RecoverOutcome,
)
    requires
        before.recover_spec(&once, RecoverOutcome::ReemitCommitted(root)),
        once.recover_spec(&twice, outcome),
    ensures
        twice.active@ == once.active@,
        outcome matches RecoverOutcome::ReemitCommitted(again) ==> again@ == root@,
        outcome is ReemitCommitted || outcome == RecoverOutcome::DowngradeOnline,
{
}

/// Recovery moves the counter only for a record that is not marked yet, whose step is the very next
/// one, and whose parent is still the active root.
pub proof fn lemma_recovery_step_needs_the_parent(active: ActiveView, live_u: u64)
    requires
        plan_spec(active, live_u) == RecoveryPlan::StepThenMark,
    ensures
        active.record matches RecordView::Committed(c) && !c.committed && c.prev_root
            == active.root && c.next_anchor_counter == live_u + 1,
{
}

/// An appliance that keeps the invariant is never found ahead of its chip.
pub proof fn lemma_recover_never_fails_closed<T: Tropic, S: WitnessSig>(
    before: ApplianceView<T, S>,
    after: ApplianceView<T, S>,
    outcome: RecoverOutcome,
)
    requires
        before.coherent(),
        before.recover_spec(&after, outcome),
    ensures
        outcome != RecoverOutcome::FailClosed,
{
}

} // verus!
