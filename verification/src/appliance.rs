//! The three-state appliance and its power-loss recovery.
//!
//! The anchor index is committed by the parent root, so a valid offline transfer advances to
//! exactly the next index. The flow is: prepare (one witness call, no export, no counter move),
//! commit (sign, move the counter, erase the key), emit (export after the commit), finalize
//! (advance the active root).
use crate::root_advance::{
    cert_message, cert_message_spec, pk_hash, pk_hash_spec, transition_digest,
    transition_digest_spec, witness_input, witness_input_spec, witness_key_material,
    witness_key_spec, Certificate, CertificateView, CounterEvidence, CounterEvidenceView,
    OfflineRelease, OfflineReleaseView, OwnedTransition, Transition, TransitionView,
};
use crate::tropic::{get_done, mac_done, update_done, Tropic, TropicError, WitnessSig};
use crate::util::ct_eq_32;
use core::marker::PhantomData;
use vstd::prelude::*;

verus! {

/// `core::sync::atomic::compiler_fence`: keeps the compiler from moving memory accesses across
/// it. Nothing is claimed of it but that it does not panic.
#[verifier::external_body]
fn fence()
    opens_invariants none
    no_unwind
{
    core::sync::atomic::compiler_fence(core::sync::atomic::Ordering::SeqCst);
}

/// `<[u8]>::fill` with zero: every byte becomes zero, and the length stays.
#[verifier::external_body]
fn fill_zero(v: &mut Vec<u8>)
    ensures
        final(v)@.len() == old(v)@.len(),
        forall|i: int| 0 <= i < old(v)@.len() ==> final(v)@[i] == 0,
    opens_invariants none
    no_unwind
{
    v.fill(0);
}

/// `core::hint::black_box`: the identity, which the compiler is asked to take for an unknown use of
/// the value, so that it keeps the stores that made it. What is claimed is the identity alone.
#[verifier::external_body]
fn look_at<V>(value: &mut V)
    ensures
        *final(value) == *old(value),
    opens_invariants none
    no_unwind
{
    core::hint::black_box(value);
}

/// Overwrites a secret with zeros, also where nothing reads it afterwards.
pub fn zeroize(v: &mut Vec<u8>)
    ensures
        final(v)@.len() == old(v)@.len(),
        forall|i: int| 0 <= i < old(v)@.len() ==> final(v)@[i] == 0,
    opens_invariants none
    no_unwind
{
    fill_zero(v);
    look_at(v);
    fence();
}

/// Wipes a secret and empties it, so that a non-empty key is a live one.
pub fn zeroize_vec(v: &mut Vec<u8>)
    ensures
        final(v)@ == Seq::<u8>::empty(),
{
    zeroize(v);
    v.clear();
}

/// Overwrites a 32-byte secret with zeros.
pub fn zeroize_array(a: &mut [u8; 32])
    ensures
        forall|i: int| 0 <= i < 32 ==> final(a)@[i] == 0,
{
    for i in 0..32usize
        invariant
            forall|j: int| 0 <= j < i ==> a@[j] == 0,
    {
        a[i] = 0;
    }
    look_at(a);
    fence();
}

/// Where the appliance stands.
#[derive(Clone, Copy, PartialEq, Eq, Debug, Structural)]
pub enum Status {
    Ready,
    Prepared,
    Committed,
}

/// Why an operation was refused or failed.
#[derive(Clone, Copy, PartialEq, Eq, Debug, Structural)]
pub enum ApplianceError {
    /// Operation not valid in the current status.
    WrongState,
    /// The requested parent root is not the active root.
    PrevRootMismatch,
    /// `next_anchor_counter` is not `anchor_counter + 1`, or `anchor_counter` is not the active
    /// index.
    IndexMismatch,
    /// The active index is not `H0 - H`: the appliance is not offline-ready.
    CounterMismatch,
    /// The witness key of the prepared record was lost.
    WitnessKeyLost,
    /// A counter step on an exhausted counter (`H == 0`): online only.
    CounterExhausted,
    /// There is no committed release to emit or finalize.
    NotCommitted,
    /// The secure element failed.
    Tropic(TropicError),
}

/// The contents of a prepared record.
#[verifier::ext_equal]
pub struct PreparedRecordView {
    pub txn: TransitionView,
    pub digest: Seq<u8>,
    pub witness_input: Seq<u8>,
    pub cert_message: Seq<u8>,
    pub pk_hw: Seq<u8>,
    pub p_hw: Seq<u8>,
    pub sk_hw: Seq<u8>,
    pub receiver_challenge: Seq<u8>,
}

/// Prepared record: witness material and the certificate message, kept with the signing key until
/// the commit signs and erases it. No counter has moved.
pub struct PreparedRecord {
    pub txn: OwnedTransition,
    /// Transition digest.
    pub digest: [u8; 32],
    /// Witness input.
    pub witness_input: [u8; 32],
    /// Certificate message.
    pub cert_message: [u8; 32],
    pub pk_hw: Vec<u8>,
    pub p_hw: [u8; 32],
    /// Secret witness signing key; erased at commit and cancel.
    pub sk_hw: Vec<u8>,
    pub receiver_challenge: [u8; 32],
}

impl View for PreparedRecord {
    type V = PreparedRecordView;

    open spec fn view(&self) -> PreparedRecordView {
        PreparedRecordView {
            txn: self.txn@,
            digest: self.digest@,
            witness_input: self.witness_input@,
            cert_message: self.cert_message@,
            pk_hw: self.pk_hw@,
            p_hw: self.p_hw@,
            sk_hw: self.sk_hw@,
            receiver_challenge: self.receiver_challenge@,
        }
    }
}

impl Drop for PreparedRecord {
    /// Wipes the signing key of a record that goes away without a commit or a cancel.
    fn drop(&mut self)
        ensures
            final(self).sk_hw@.len() == old(self).sk_hw@.len(),
            forall|i: int| 0 <= i < old(self).sk_hw@.len() ==> final(self).sk_hw@[i] == 0,
        opens_invariants none
        no_unwind
    {
        zeroize(&mut self.sk_hw);
    }
}

/// The contents of a committed record.
#[verifier::ext_equal]
pub struct CommittedRecordView {
    pub prev_root: Seq<u8>,
    pub next_root: Seq<u8>,
    pub anchor_counter: u64,
    pub next_anchor_counter: u64,
    pub release: OfflineReleaseView,
    pub committed: bool,
}

/// Committed record: the signed release, and whether the counter has moved for it.
pub struct CommittedRecord {
    pub prev_root: [u8; 32],
    pub next_root: [u8; 32],
    pub anchor_counter: u64,
    pub next_anchor_counter: u64,
    pub release: OfflineRelease,
    pub committed: bool,
}

impl View for CommittedRecord {
    type V = CommittedRecordView;

    open spec fn view(&self) -> CommittedRecordView {
        CommittedRecordView {
            prev_root: self.prev_root@,
            next_root: self.next_root@,
            anchor_counter: self.anchor_counter,
            next_anchor_counter: self.next_anchor_counter,
            release: self.release@,
            committed: self.committed,
        }
    }
}

/// The contents of the live record.
#[verifier::ext_equal]
pub enum RecordView {
    Empty,
    Prepared(PreparedRecordView),
    Committed(CommittedRecordView),
}

/// The live record.
pub enum Record {
    Empty,
    Prepared(Box<PreparedRecord>),
    Committed(Box<CommittedRecord>),
}

impl View for Record {
    type V = RecordView;

    open spec fn view(&self) -> RecordView {
        match self {
            Record::Empty => RecordView::Empty,
            Record::Prepared(p) => RecordView::Prepared(p@),
            Record::Committed(c) => RecordView::Committed(c@),
        }
    }
}

/// The contents of the active state.
#[verifier::ext_equal]
pub struct ActiveView {
    pub root: Seq<u8>,
    pub u: u64,
    pub status: Status,
    pub record: RecordView,
}

/// The single active state.
pub struct Active {
    pub root: [u8; 32],
    pub u: u64,
    pub status: Status,
    pub record: Record,
}

impl View for Active {
    type V = ActiveView;

    open spec fn view(&self) -> ActiveView {
        ActiveView { root: self.root@, u: self.u, status: self.status, record: self.record@ }
    }
}

/// What recovery found.
#[derive(Clone, Copy, PartialEq, Eq, Debug)]
pub enum RecoverOutcome {
    /// Nothing is pending; the appliance is offline-ready at the carried root.
    Accept([u8; 32]),
    /// A committed successor (the carried root) is pending. The record is left committed, so the
    /// caller emits it again and finalizes it: the same release, never a new signature.
    ReemitCommitted([u8; 32]),
    DowngradeOnline,
    FailClosed,
    ExhaustedOnlineOnly,
    AcceptPreparedCanComplete,
    OnlineCancelOrResolve,
}

/// What recovery does with an active state, once the live index is known.
#[derive(Clone, Copy, PartialEq, Eq, Debug)]
pub enum RecoveryPlan {
    /// Leave everything as it is and answer.
    Answer(RecoverOutcome),
    /// The counter has moved for the committed record: mark it, and have it emitted again.
    Mark,
    /// The counter has not moved for the committed record: move it once, then mark.
    StepThenMark,
    /// Ready and in step with the counter: answer by whether the counter can still move.
    Probe,
}

/// The live index of a chip whose counter was enrolled at `h0` and read as `reply`. The counter
/// only counts down, so a value above `h0` is impossible, and rejected.
pub open spec fn live_index_spec(h0: u32, reply: Result<u32, TropicError>) -> Result<
    u64,
    ApplianceError,
> {
    match reply {
        Err(e) => Err(ApplianceError::Tropic(e)),
        Ok(h) => if h > h0 {
            Err(ApplianceError::CounterMismatch)
        } else {
            Ok((h0 - h) as u64)
        },
    }
}

/// Whether an index is in step with a chip whose counter was enrolled at `h0` and read as
/// `reply`.
pub open spec fn in_step_spec(h0: u32, u: u64, reply: Result<u32, TropicError>) -> Result<
    (),
    ApplianceError,
> {
    match live_index_spec(h0, reply) {
        Err(e) => Err(e),
        Ok(live_u) => if u == live_u {
            Ok(())
        } else {
            Err(ApplianceError::CounterMismatch)
        },
    }
}

/// The counter value from which a commit at index `u` may step, for a chip whose counter was
/// enrolled at `h0` and read as `reply`.
pub open spec fn movable_spec(h0: u32, u: u64, reply: Result<u32, TropicError>) -> Result<
    u32,
    ApplianceError,
> {
    match reply {
        Err(e) => Err(ApplianceError::Tropic(e)),
        Ok(h) => if h == 0 {
            Err(ApplianceError::CounterExhausted)
        } else if h > h0 || h0 - h != u {
            Err(ApplianceError::CounterMismatch)
        } else {
            Ok(h)
        },
    }
}

/// The error of a commit whose counter step failed: an exhausted counter is told from any other
/// failure of the chip.
pub open spec fn step_error_spec(e: TropicError) -> ApplianceError {
    if e == TropicError::CounterExhausted {
        ApplianceError::CounterExhausted
    } else {
        ApplianceError::Tropic(e)
    }
}

/// What recovery does with an active state whose chip stands at index `live_u`.
pub open spec fn plan_spec(active: ActiveView, live_u: u64) -> RecoveryPlan {
    let downgrade = RecoveryPlan::Answer(RecoverOutcome::DowngradeOnline);
    match active.status {
        Status::Committed => match active.record {
            RecordView::Committed(c) => if c.next_anchor_counter == live_u {
                RecoveryPlan::Mark
            } else if !c.committed && c.next_anchor_counter == live_u + 1 && c.prev_root
                == active.root {
                RecoveryPlan::StepThenMark
            } else {
                downgrade
            },
            _ => downgrade,
        },
        Status::Prepared => match active.record {
            RecordView::Prepared(p) => if active.u != live_u || p.txn.prev_root != active.root {
                downgrade
            } else if p.sk_hw.len() > 0 {
                RecoveryPlan::Answer(RecoverOutcome::AcceptPreparedCanComplete)
            } else {
                RecoveryPlan::Answer(RecoverOutcome::OnlineCancelOrResolve)
            },
            _ => downgrade,
        },
        Status::Ready => if active.u < live_u {
            downgrade
        } else if active.u > live_u {
            RecoveryPlan::Answer(RecoverOutcome::FailClosed)
        } else {
            RecoveryPlan::Probe
        },
    }
}

/// The active state with its committed record marked as counter-committed.
pub open spec fn marked(active: ActiveView) -> ActiveView {
    match active.record {
        RecordView::Committed(c) => ActiveView {
            u: c.next_anchor_counter,
            record: RecordView::Committed(CommittedRecordView { committed: true, ..c }),
            ..active
        },
        _ => active,
    }
}

/// The answer for a committed record: its successor is to be emitted again.
pub open spec fn reemit(record: Record) -> RecoverOutcome {
    match record {
        Record::Committed(c) => RecoverOutcome::ReemitCommitted(c.next_root),
        _ => RecoverOutcome::DowngradeOnline,
    }
}

/// The live index for a counter reply.
pub fn live_index_of(h0: u32, reply: Result<u32, TropicError>) -> (index: Result<
    u64,
    ApplianceError,
>)
    ensures
        index == live_index_spec(h0, reply),
{
    match reply {
        Err(e) => Err(ApplianceError::Tropic(e)),
        Ok(h) => match h0.checked_sub(h) {
            Some(u) => Ok(u as u64),
            None => Err(ApplianceError::CounterMismatch),
        },
    }
}

/// Whether an index is in step with the chip, for a counter reply.
pub fn in_step(h0: u32, u: u64, reply: Result<u32, TropicError>) -> (checked: Result<
    (),
    ApplianceError,
>)
    ensures
        checked == in_step_spec(h0, u, reply),
{
    match live_index_of(h0, reply) {
        Err(e) => Err(e),
        Ok(live_u) => if u == live_u {
            Ok(())
        } else {
            Err(ApplianceError::CounterMismatch)
        },
    }
}

/// The counter value from which a commit at index `u` may step, for a counter reply.
pub fn movable(h0: u32, u: u64, reply: Result<u32, TropicError>) -> (checked: Result<
    u32,
    ApplianceError,
>)
    ensures
        checked == movable_spec(h0, u, reply),
{
    match reply {
        Err(e) => Err(ApplianceError::Tropic(e)),
        Ok(h) => {
            if h == 0 {
                return Err(ApplianceError::CounterExhausted);
            }
            match h0.checked_sub(h) {
                Some(live_u) => if live_u as u64 == u {
                    Ok(h)
                } else {
                    Err(ApplianceError::CounterMismatch)
                },
                None => Err(ApplianceError::CounterMismatch),
            }
        },
    }
}

/// The error of a commit whose counter step failed.
pub fn step_error(e: TropicError) -> (error: ApplianceError)
    ensures
        error == step_error_spec(e),
{
    match e {
        TropicError::CounterExhausted => ApplianceError::CounterExhausted,
        _ => ApplianceError::Tropic(e),
    }
}

/// What recovery does with an active state, once the live index is known.
pub fn plan_recovery(active: &Active, live_u: u64) -> (plan: RecoveryPlan)
    ensures
        plan == plan_spec(active@, live_u),
{
    let downgrade: RecoveryPlan = RecoveryPlan::Answer(RecoverOutcome::DowngradeOnline);
    match active.status {
        Status::Committed => match &active.record {
            Record::Committed(c) => if c.next_anchor_counter == live_u {
                RecoveryPlan::Mark
            } else if !c.committed && live_u.checked_add(1) == Some(c.next_anchor_counter)
                && ct_eq_32(&c.prev_root, &active.root) {
                RecoveryPlan::StepThenMark
            } else {
                downgrade
            },
            _ => downgrade,
        },
        Status::Prepared => match &active.record {
            Record::Prepared(p) => if active.u != live_u || !ct_eq_32(
                &p.txn.prev_root,
                &active.root,
            ) {
                downgrade
            } else if p.sk_hw.len() > 0 {
                RecoveryPlan::Answer(RecoverOutcome::AcceptPreparedCanComplete)
            } else {
                RecoveryPlan::Answer(RecoverOutcome::OnlineCancelOrResolve)
            },
            _ => downgrade,
        },
        Status::Ready => if active.u < live_u {
            downgrade
        } else if active.u > live_u {
            RecoveryPlan::Answer(RecoverOutcome::FailClosed)
        } else {
            RecoveryPlan::Probe
        },
    }
}

/// The contents of an appliance, and the chip behind it.
pub struct ApplianceView<T: Tropic, S: WitnessSig> {
    pub h0: u32,
    pub anchor_id: [u8; 32],
    pub slot: u16,
    pub active: Active,
    pub firmware_boundary_invalid: bool,
    pub rmemory_map_invalid: bool,
    pub tropic: T,
    pub sig: PhantomData<S>,
}

/// The offline-bearer appliance for one active root. Whoever holds it cannot operate its chip past
/// it.
pub struct Appliance<T: Tropic, S: WitnessSig> {
    /// Enrolled counter value.
    pub h0: u32,
    pub anchor_id: [u8; 32],
    pub slot: u16,
    pub active: Active,
    /// Known invalidations, which send recovery online.
    pub firmware_boundary_invalid: bool,
    pub rmemory_map_invalid: bool,
    /// The secure element.
    tropic: T,
    /// The signature scheme.
    _sig: PhantomData<S>,
}

impl<T: Tropic, S: WitnessSig> View for Appliance<T, S> {
    type V = ApplianceView<T, S>;

    closed spec fn view(&self) -> ApplianceView<T, S> {
        ApplianceView {
            h0: self.h0,
            anchor_id: self.anchor_id,
            slot: self.slot,
            active: self.active,
            firmware_boundary_invalid: self.firmware_boundary_invalid,
            rmemory_map_invalid: self.rmemory_map_invalid,
            tropic: self.tropic,
            sig: self._sig,
        }
    }
}

impl<T: Tropic, S: WitnessSig> ApplianceView<T, S> {
    /// All but the chip and the active state is as in `other`.
    pub open spec fn same_setup(&self, other: &Self) -> bool {
        &&& self.h0 == other.h0
        &&& self.anchor_id == other.anchor_id
        &&& self.slot == other.slot
        &&& self.firmware_boundary_invalid == other.firmware_boundary_invalid
        &&& self.rmemory_map_invalid == other.rmemory_map_invalid
    }

    /// If a commit would not be refused, the signing key of the prepared record can sign.
    pub open spec fn key_usable(&self) -> bool {
        self.commit_refusal() is None ==> S::usable(self.active.record@->Prepared_0.sk_hw)
    }

    /// Why a request to prepare `t` is refused before the chip is asked.
    pub open spec fn prepare_refusal(&self, t: TransitionView) -> Option<ApplianceError> {
        if self.active.status != Status::Ready {
            Some(ApplianceError::WrongState)
        } else if self.active.root@ != t.prev_root {
            Some(ApplianceError::PrevRootMismatch)
        } else if t.anchor_counter != self.active.u || t.next_anchor_counter != t.anchor_counter
            + 1 {
            Some(ApplianceError::IndexMismatch)
        } else {
            None
        }
    }

    /// The witness input of a request.
    pub open spec fn input_spec(&self, t: TransitionView, challenge: Seq<u8>) -> Seq<u8> {
        witness_input_spec(t, transition_digest_spec(t), self.anchor_id@, self.slot, challenge)
    }

    /// The record that the witness `w` for the digest `d` and the input `x` leads to.
    pub open spec fn witnessed_spec(
        &self,
        t: TransitionView,
        d: Seq<u8>,
        x: Seq<u8>,
        challenge: Seq<u8>,
        w: Seq<u8>,
    ) -> PreparedRecordView {
        let k = witness_key_spec(w, x, t, self.anchor_id@, self.slot);
        let keys = S::spec_keygen(k);
        let p_hw = pk_hash_spec(keys.1);
        PreparedRecordView {
            txn: t,
            digest: d,
            witness_input: x,
            cert_message: cert_message_spec(
                t,
                d,
                x,
                p_hw,
                self.anchor_id@,
                self.slot,
                challenge,
            ),
            pk_hw: keys.1,
            p_hw,
            sk_hw: keys.0,
            receiver_challenge: challenge,
        }
    }

    /// The active state after the chip answered a request with the witness `w`.
    pub open spec fn prepared_spec(
        &self,
        t: TransitionView,
        challenge: Seq<u8>,
        w: Seq<u8>,
    ) -> ActiveView {
        ActiveView {
            root: self.active.root@,
            u: self.active.u,
            status: Status::Prepared,
            record: RecordView::Prepared(
                self.witnessed_spec(
                    t,
                    transition_digest_spec(t),
                    self.input_spec(t, challenge),
                    challenge,
                    w,
                ),
            ),
        }
    }

    /// What `prepare` does: refused before the chip is asked, or as the counter reply and the
    /// witness reply decide.
    pub open spec fn prepare_spec(
        &self,
        t: TransitionView,
        challenge: Seq<u8>,
        after: &Self,
        result: Result<(), ApplianceError>,
    ) -> bool {
        match self.prepare_refusal(t) {
            Some(e) => result == Err::<(), ApplianceError>(e) && *after == *self,
            None => exists|reply: Result<u32, TropicError>, read: T|
                {
                    &&& #[trigger] get_done(self.tropic, reply, read)
                    &&& self.prepare_answered(t, challenge, reply, read, after, result)
                },
        }
    }

    /// What `prepare` does once the counter read was answered `reply`.
    pub open spec fn prepare_answered(
        &self,
        t: TransitionView,
        challenge: Seq<u8>,
        reply: Result<u32, TropicError>,
        read: T,
        after: &Self,
        result: Result<(), ApplianceError>,
    ) -> bool {
        &&& after.same_setup(self)
        &&& match in_step_spec(self.h0, self.active.u, reply) {
            Err(e) => {
                &&& result == Err::<(), ApplianceError>(e)
                &&& after.active == self.active
                &&& after.tropic == read
            },
            Ok(_) => exists|w: Result<[u8; 32], TropicError>|
                {
                    &&& #[trigger] mac_done(
                        read,
                        self.slot,
                        self.input_spec(t, challenge),
                        w,
                        after.tropic,
                    )
                    &&& match w {
                        Err(e) => {
                            &&& result == Err::<(), ApplianceError>(ApplianceError::Tropic(e))
                            &&& after.active == self.active
                        },
                        Ok(w) => {
                            &&& result is Ok
                            &&& after.active@ == self.prepared_spec(t, challenge, w@)
                        },
                    }
                },
        }
    }

    /// Why a commit is refused before the chip is asked.
    pub open spec fn commit_refusal(&self) -> Option<ApplianceError> {
        match self.active.record@ {
            RecordView::Prepared(p) => if p.sk_hw.len() == 0 {
                Some(ApplianceError::WitnessKeyLost)
            } else if p.txn.prev_root != self.active.root@ {
                Some(ApplianceError::PrevRootMismatch)
            } else {
                None
            },
            _ => Some(ApplianceError::WrongState),
        }
    }

    /// The release of a prepared record whose commit steps from the counter value `h`.
    pub open spec fn release_spec(&self, p: PreparedRecordView, h: u32) -> OfflineReleaseView {
        OfflineReleaseView {
            transition: p.txn,
            cert: CertificateView {
                prev_root: p.txn.prev_root,
                next_root: p.txn.next_root,
                anchor_counter: p.txn.anchor_counter,
                next_anchor_counter: p.txn.next_anchor_counter,
                transition_digest: p.digest,
                witness_input: p.witness_input,
                pk_hash: p.p_hw,
                pk_hw: p.pk_hw,
                sigma: S::spec_sign(p.sk_hw, p.cert_message),
                anchor_id: self.anchor_id@,
                slot: self.slot,
                receiver_challenge: p.receiver_challenge,
            },
            counter: CounterEvidenceView {
                anchor_id: self.anchor_id@,
                enrolled_counter: self.h0 as u64,
                live_counter_claim: (h - 1) as u64,
                derived_index_claim: p.txn.next_anchor_counter,
                verifier_transcript: Seq::empty(),
            },
        }
    }

    /// The durable candidate of a commit, which exists before the counter moves.
    pub open spec fn candidate_spec(&self, p: PreparedRecordView, h: u32) -> ActiveView {
        ActiveView {
            root: self.active.root@,
            u: self.active.u,
            status: Status::Committed,
            record: RecordView::Committed(
                CommittedRecordView {
                    prev_root: p.txn.prev_root,
                    next_root: p.txn.next_root,
                    anchor_counter: p.txn.anchor_counter,
                    next_anchor_counter: p.txn.next_anchor_counter,
                    release: self.release_spec(p, h),
                    committed: false,
                },
            ),
        }
    }

    /// What `sign_candidate` does: refused before the chip is asked, or as the counter reply
    /// decides. The counter does not move.
    pub open spec fn sign_candidate_spec(
        &self,
        after: &Self,
        result: Result<(), ApplianceError>,
    ) -> bool {
        match self.commit_refusal() {
            Some(e) => result == Err::<(), ApplianceError>(e) && *after == *self,
            None => exists|reply: Result<u32, TropicError>|
                {
                    &&& #[trigger] get_done(self.tropic, reply, after.tropic)
                    &&& after.same_setup(self)
                    &&& self.candidate_signed(
                        self.active.record@->Prepared_0,
                        reply,
                        after.active,
                        result,
                    )
                },
        }
    }

    /// The active state that signing the prepared record `p` leads to once the counter read was
    /// answered `reply`: the candidate, or no change where the counter is not movable.
    pub open spec fn candidate_signed(
        &self,
        p: PreparedRecordView,
        reply: Result<u32, TropicError>,
        active: Active,
        result: Result<(), ApplianceError>,
    ) -> bool {
        match movable_spec(self.h0, p.txn.anchor_counter, reply) {
            Err(e) => result == Err::<(), ApplianceError>(e) && active == self.active,
            Ok(h) => result is Ok && active@ == self.candidate_spec(p, h),
        }
    }

    /// Whether the record is a candidate: signed, and not marked as counter-committed.
    pub open spec fn holds_candidate(&self) -> bool {
        self.active.record matches Record::Committed(c) && !c.committed
    }

    /// What `step_counter` does: refused without a candidate, or as the reply to the counter step
    /// decides.
    pub open spec fn step_counter_spec(
        &self,
        after: &Self,
        result: Result<(), ApplianceError>,
    ) -> bool {
        if !self.holds_candidate() {
            result == Err::<(), ApplianceError>(ApplianceError::WrongState) && *after == *self
        } else {
            exists|step: Result<(), TropicError>|
                {
                    &&& #[trigger] update_done(self.tropic, step, after.tropic)
                    &&& after.same_setup(self)
                    &&& match step {
                        Err(e) => {
                            &&& result == Err::<(), ApplianceError>(step_error_spec(e))
                            &&& after.active == self.active
                        },
                        Ok(_) => {
                            &&& result is Ok
                            &&& after.active@ == marked(self.active@)
                        },
                    }
                }
        }
    }

    /// What `commit` does: refused before the chip is asked, or as the counter reply and the reply
    /// to the counter step decide.
    pub open spec fn commit_spec(&self, after: &Self, result: Result<(), ApplianceError>) -> bool {
        match self.commit_refusal() {
            Some(e) => result == Err::<(), ApplianceError>(e) && *after == *self,
            None => exists|reply: Result<u32, TropicError>, read: T|
                {
                    &&& #[trigger] get_done(self.tropic, reply, read)
                    &&& self.commit_answered(
                        self.active.record@->Prepared_0,
                        reply,
                        read,
                        after,
                        result,
                    )
                },
        }
    }

    /// What `commit` does with the prepared record `p` once the counter read was answered `reply`.
    pub open spec fn commit_answered(
        &self,
        p: PreparedRecordView,
        reply: Result<u32, TropicError>,
        read: T,
        after: &Self,
        result: Result<(), ApplianceError>,
    ) -> bool {
        &&& after.same_setup(self)
        &&& match movable_spec(self.h0, p.txn.anchor_counter, reply) {
            Err(e) => {
                &&& result == Err::<(), ApplianceError>(e)
                &&& after.active == self.active
                &&& after.tropic == read
            },
            Ok(h) => exists|step: Result<(), TropicError>|
                {
                    &&& #[trigger] update_done(read, step, after.tropic)
                    &&& match step {
                        Err(e) => {
                            &&& result == Err::<(), ApplianceError>(step_error_spec(e))
                            &&& after.active@ == self.candidate_spec(p, h)
                        },
                        Ok(_) => {
                            &&& result is Ok
                            &&& after.active@ == marked(self.candidate_spec(p, h))
                        },
                    }
                },
        }
    }

    /// The committed release, if there is one to export.
    pub open spec fn exported(&self) -> Option<OfflineReleaseView> {
        match self.active.record@ {
            RecordView::Committed(c) => if c.committed {
                Some(c.release)
            } else {
                None
            },
            _ => None,
        }
    }

    /// What `finalize` does: refused without a committed release, or as the counter reply decides.
    pub open spec fn finalize_spec(
        &self,
        after: &Self,
        result: Result<[u8; 32], ApplianceError>,
    ) -> bool {
        match self.active.record {
            Record::Committed(c) if c.committed => exists|reply: Result<u32, TropicError>|
                {
                    &&& #[trigger] get_done(self.tropic, reply, after.tropic)
                    &&& after.same_setup(self)
                    &&& match in_step_spec(self.h0, self.active.u, reply) {
                        Err(e) => {
                            &&& result == Err::<[u8; 32], ApplianceError>(e)
                            &&& after.active == self.active
                        },
                        Ok(_) => {
                            &&& result == Ok::<[u8; 32], ApplianceError>(c.next_root)
                            &&& after.active == (Active {
                                root: c.next_root,
                                u: self.active.u,
                                status: Status::Ready,
                                record: Record::Empty,
                            })
                        },
                    }
                },
            _ => {
                &&& result == Err::<[u8; 32], ApplianceError>(ApplianceError::NotCommitted)
                &&& *after == *self
            },
        }
    }

    /// What `cancel` does: refused without a prepared record, otherwise back to ready.
    pub open spec fn cancel_spec(&self, after: &Self, result: Result<(), ApplianceError>) -> bool {
        &&& after.same_setup(self)
        &&& after.tropic == self.tropic
        &&& match self.active.record {
            Record::Prepared(_) => {
                &&& result is Ok
                &&& after.active == (Active {
                    root: self.active.root,
                    u: self.active.u,
                    status: Status::Ready,
                    record: Record::Empty,
                })
            },
            _ => {
                &&& result == Err::<(), ApplianceError>(ApplianceError::WrongState)
                &&& after.active == self.active
            },
        }
    }

    /// What `recover` does: nothing after a known invalidation, otherwise as the counter reply and
    /// the plan for it decide.
    pub open spec fn recover_spec(&self, after: &Self, outcome: RecoverOutcome) -> bool {
        if self.firmware_boundary_invalid || self.rmemory_map_invalid {
            outcome == RecoverOutcome::DowngradeOnline && *after == *self
        } else {
            exists|reply: Result<u32, TropicError>, read: T|
                {
                    &&& #[trigger] get_done(self.tropic, reply, read)
                    &&& self.recover_answered(reply, read, after, outcome)
                }
        }
    }

    /// What `recover` does once the counter read was answered `reply`.
    pub open spec fn recover_answered(
        &self,
        reply: Result<u32, TropicError>,
        read: T,
        after: &Self,
        outcome: RecoverOutcome,
    ) -> bool {
        &&& after.same_setup(self)
        &&& match live_index_spec(self.h0, reply) {
            Err(_) => {
                &&& outcome == RecoverOutcome::DowngradeOnline
                &&& after.active == self.active
                &&& after.tropic == read
            },
            Ok(live_u) => match plan_spec(self.active@, live_u) {
                RecoveryPlan::Answer(answer) => {
                    &&& outcome == answer
                    &&& after.active == self.active
                    &&& after.tropic == read
                },
                RecoveryPlan::Mark => {
                    &&& outcome == reemit(self.active.record)
                    &&& after.active@ == marked(self.active@)
                    &&& after.tropic == read
                },
                RecoveryPlan::StepThenMark => exists|step: Result<(), TropicError>|
                    {
                        &&& #[trigger] update_done(read, step, after.tropic)
                        &&& if step is Ok {
                            &&& outcome == reemit(self.active.record)
                            &&& after.active@ == marked(self.active@)
                        } else {
                            &&& outcome == RecoverOutcome::DowngradeOnline
                            &&& after.active == self.active
                        }
                    },
                RecoveryPlan::Probe => exists|again: Result<u32, TropicError>|
                    {
                        &&& #[trigger] get_done(read, again, after.tropic)
                        &&& after.active == self.active
                        &&& outcome == match again {
                            Err(_) => RecoverOutcome::DowngradeOnline,
                            Ok(h) => if h == 0 {
                                RecoverOutcome::ExhaustedOnlineOnly
                            } else {
                                RecoverOutcome::Accept(self.active.root)
                            },
                        }
                    },
            },
        }
    }
}

impl<T: Tropic, S: WitnessSig> Appliance<T, S> {
    /// An appliance that is ready at `active_root`, at index zero.
    pub fn new(tropic: T, h0: u32, active_root: [u8; 32], anchor_id: [u8; 32], slot: u16) -> (app:
        Self)
        ensures
            app@.h0 == h0,
            app@.anchor_id == anchor_id,
            app@.slot == slot,
            app@.active == (Active {
                root: active_root,
                u: 0,
                status: Status::Ready,
                record: Record::Empty,
            }),
            !app@.firmware_boundary_invalid,
            !app@.rmemory_map_invalid,
            app@.tropic == tropic,
    {
        Appliance {
            h0,
            anchor_id,
            slot,
            active: Active {
                root: active_root,
                u: 0,
                status: Status::Ready,
                record: Record::Empty,
            },
            firmware_boundary_invalid: false,
            rmemory_map_invalid: false,
            tropic,
            _sig: PhantomData,
        }
    }

    /// The active state.
    pub fn state(&self) -> (active: &Active)
        ensures
            *active == self@.active,
    {
        &self.active
    }

    /// Live anchor index `H0 - H` of the chip.
    pub fn live_index(&mut self) -> (index: Result<u64, ApplianceError>)
        ensures
            exists|reply: Result<u32, TropicError>|
                {
                    &&& #[trigger] get_done(old(self)@.tropic, reply, final(self)@.tropic)
                    &&& index == live_index_spec(old(self)@.h0, reply)
                },
            final(self)@.same_setup(&old(self)@),
            final(self)@.active == old(self)@.active,
    {
        let reply: Result<u32, TropicError> = self.tropic.counter_get();
        assert(get_done(old(self)@.tropic, reply, self@.tropic));
        live_index_of(self.h0, reply)
    }

    /// The record that a witness output leads to: the signing key derived from it, the handle of
    /// the public key, and the certificate message.
    pub fn witnessed_record(
        &self,
        t: &Transition,
        d: [u8; 32],
        x: [u8; 32],
        receiver_challenge: &[u8; 32],
        w: &[u8; 32],
    ) -> (record: PreparedRecord)
        ensures
            record@ == self@.witnessed_spec(t@, d@, x@, receiver_challenge@, w@),
            S::usable(record.sk_hw@),
    {
        let mut k: [u8; 32] = witness_key_material(w, &x, t, &self.anchor_id, self.slot);
        let (sk_hw, pk_hw) = S::keygen(&k);
        zeroize_array(&mut k);
        let p_hw: [u8; 32] = pk_hash(pk_hw.as_slice());
        let m: [u8; 32] = cert_message(
            t,
            &d,
            &x,
            &p_hw,
            &self.anchor_id,
            self.slot,
            receiver_challenge,
        );
        PreparedRecord {
            txn: OwnedTransition::from(t),
            digest: d,
            witness_input: x,
            cert_message: m,
            pk_hw,
            p_hw,
            sk_hw,
            receiver_challenge: *receiver_challenge,
        }
    }

    /// Prepares one root advance: one witness call for the exact advance, and a durable record of
    /// what came of it. The counter does not move and nothing is exported. Refused unless ready
    /// and in step with the counter.
    pub fn prepare(&mut self, t: &Transition, receiver_challenge: &[u8; 32]) -> (result: Result<
        (),
        ApplianceError,
    >)
        ensures
            old(self)@.prepare_spec(t@, receiver_challenge@, &final(self)@, result),
            result is Ok || old(self)@.key_usable() ==> final(self)@.key_usable(),
    {
        if self.active.status != Status::Ready {
            return Err(ApplianceError::WrongState);
        }
        if !ct_eq_32(&self.active.root, t.prev_root) {
            return Err(ApplianceError::PrevRootMismatch);
        }
        if t.anchor_counter != self.active.u {
            return Err(ApplianceError::IndexMismatch);
        }
        if t.anchor_counter.checked_add(1) != Some(t.next_anchor_counter) {
            return Err(ApplianceError::IndexMismatch);
        }
        let reply: Result<u32, TropicError> = self.tropic.counter_get();
        let ghost read = self@.tropic;
        assert(get_done(old(self)@.tropic, reply, read));
        match in_step(self.h0, self.active.u, reply) {
            Err(e) => {
                return Err(e);
            },
            Ok(_) => {},
        }
        let d: [u8; 32] = transition_digest(t);
        let x: [u8; 32] = witness_input(t, &d, &self.anchor_id, self.slot, receiver_challenge);
        let witness: Result<[u8; 32], TropicError> = self.tropic.mac_and_destroy(self.slot, &x);
        let ghost asked = self@.tropic;
        assert(mac_done(
            read,
            old(self)@.slot,
            old(self)@.input_spec(t@, receiver_challenge@),
            witness,
            asked,
        ));
        match witness {
            Err(e) => Err(ApplianceError::Tropic(e)),
            Ok(output) => {
                let mut w: [u8; 32] = output;
                let record: PreparedRecord = self.witnessed_record(
                    t,
                    d,
                    x,
                    receiver_challenge,
                    &w,
                );
                zeroize_array(&mut w);
                self.active.status = Status::Prepared;
                self.active.record = Record::Prepared(Box::new(record));
                assert(self.active@ =~= old(self)@.prepared_spec(t@, receiver_challenge@, output@));
                assert(self@.tropic == asked);
                assert(old(self)@.prepare_answered(
                    t@,
                    receiver_challenge@,
                    reply,
                    read,
                    &self@,
                    Ok(()),
                ));
                Ok(())
            },
        }
    }

    /// The release of a prepared record whose commit steps from the counter value `h`. The counter
    /// evidence in it is the appliance's own view, an untrusted claim: after the step the counter
    /// reads `h - 1`.
    pub fn release_of(&self, p: &PreparedRecord, h: u32) -> (release: OfflineRelease)
        requires
            S::usable(p.sk_hw@),
            h > 0,
        ensures
            release@ == self@.release_spec(p@, h),
    {
        let sigma: Vec<u8> = S::sign(p.sk_hw.as_slice(), &p.cert_message);
        let pk_hw: Vec<u8> = p.pk_hw.clone();
        assert(pk_hw@ =~= p.pk_hw@);
        OfflineRelease {
            transition: OwnedTransition::from(&p.txn.as_transition()),
            cert: Certificate {
                prev_root: p.txn.prev_root,
                next_root: p.txn.next_root,
                anchor_counter: p.txn.anchor_counter,
                next_anchor_counter: p.txn.next_anchor_counter,
                transition_digest: p.digest,
                witness_input: p.witness_input,
                pk_hash: p.p_hw,
                pk_hw,
                sigma,
                anchor_id: self.anchor_id,
                slot: self.slot,
                receiver_challenge: p.receiver_challenge,
            },
            counter: CounterEvidence {
                anchor_id: self.anchor_id,
                enrolled_counter: self.h0 as u64,
                live_counter_claim: (h - 1) as u64,
                derived_index_claim: p.txn.next_anchor_counter,
                verifier_transcript: Vec::new(),
            },
        }
    }

    /// The first phase of a commit: signs, keeps the release as a candidate, and erases the signing
    /// key. The counter is read and does not move. Refused unless the counter can move and is still
    /// at the parent's index.
    pub fn sign_candidate(&mut self) -> (result: Result<(), ApplianceError>)
        requires
            old(self)@.key_usable(),
        ensures
            old(self)@.sign_candidate_spec(&final(self)@, result),
            final(self)@.key_usable(),
    {
        let u: u64 = match &self.active.record {
            Record::Prepared(p) => {
                if p.sk_hw.len() == 0 {
                    return Err(ApplianceError::WitnessKeyLost);
                }
                if !ct_eq_32(&p.txn.prev_root, &self.active.root) {
                    return Err(ApplianceError::PrevRootMismatch);
                }
                p.txn.anchor_counter
            },
            _ => {
                return Err(ApplianceError::WrongState);
            },
        };
        let ghost record = self.active.record@->Prepared_0;
        let reply: Result<u32, TropicError> = self.tropic.counter_get();
        let ghost read = self@.tropic;
        assert(get_done(old(self)@.tropic, reply, read));
        let h: u32 = match movable(self.h0, u, reply) {
            Ok(h) => h,
            Err(e) => {
                return Err(e);
            },
        };
        let candidate: CommittedRecord = match &self.active.record {
            Record::Prepared(p) => CommittedRecord {
                prev_root: p.txn.prev_root,
                next_root: p.txn.next_root,
                anchor_counter: p.txn.anchor_counter,
                next_anchor_counter: p.txn.next_anchor_counter,
                release: self.release_of(p, h),
                committed: false,
            },
            _ => {
                return Err(ApplianceError::WrongState);
            },
        };
        if let Record::Prepared(p) = &mut self.active.record {
            zeroize_vec(&mut p.sk_hw);
        }
        self.active.status = Status::Committed;
        self.active.record = Record::Committed(Box::new(candidate));
        assert(self.active@ =~= old(self)@.candidate_spec(record, h));
        assert(self@.tropic == read);
        assert(old(self)@.candidate_signed(record, reply, self@.active, Ok(())));
        Ok(())
    }

    /// The second and third phase of a commit: moves the counter for the candidate, and marks it.
    /// After a failure the candidate is left for recovery, which finds out whether the counter has
    /// moved.
    pub fn step_counter(&mut self) -> (result: Result<(), ApplianceError>)
        ensures
            old(self)@.step_counter_spec(&final(self)@, result),
            old(self)@.key_usable() ==> final(self)@.key_usable(),
    {
        match &self.active.record {
            Record::Committed(c) => {
                if c.committed {
                    return Err(ApplianceError::WrongState);
                }
            },
            _ => {
                return Err(ApplianceError::WrongState);
            },
        }
        let step: Result<(), TropicError> = self.tropic.counter_update();
        let ghost stepped = self@.tropic;
        assert(update_done(old(self)@.tropic, step, stepped));
        match step {
            Err(e) => Err(step_error(e)),
            Ok(_) => {
                self.mark_committed();
                assert(self@.tropic == stepped);
                Ok(())
            },
        }
    }

    /// Commits the prepared advance, in three durable phases: sign, keep the release as a
    /// candidate and erase the signing key; move the counter; mark the candidate.
    ///
    /// The release exists before the counter moves, so recovery can complete an interrupted
    /// commit. Nothing is exported before the counter has moved.
    pub fn commit(&mut self) -> (result: Result<(), ApplianceError>)
        requires
            old(self)@.key_usable(),
        ensures
            old(self)@.commit_spec(&final(self)@, result),
            final(self)@.key_usable(),
    {
        let signed: Result<(), ApplianceError> = self.sign_candidate();
        let ghost candidate = self@;
        if let Err(e) = signed {
            proof {
                lemma_refused_signing_refuses_commit(old(self)@, candidate, e);
            }
            return Err(e);
        }
        let result: Result<(), ApplianceError> = self.step_counter();
        proof {
            lemma_commit_is_sign_then_step(old(self)@, candidate, self@, result);
        }
        result
    }

    /// The committed release, for export. The receiver reads its own counter evidence and verifies.
    pub fn emit(&self) -> (result: Result<&OfflineRelease, ApplianceError>)
        ensures
            result == (match self@.active.record {
                Record::Committed(c) if c.committed => Ok::<&OfflineRelease, ApplianceError>(
                    &c.release,
                ),
                _ => Err(ApplianceError::NotCommitted),
            }),
    {
        match &self.active.record {
            Record::Committed(c) if c.committed => Ok(&c.release),
            _ => Err(ApplianceError::NotCommitted),
        }
    }

    /// Advances the active root to the committed successor and returns to ready. The active index
    /// must be in step with the counter, so a breached or half-restored state cannot install a
    /// successor out of step with the chip.
    pub fn finalize(&mut self) -> (result: Result<[u8; 32], ApplianceError>)
        ensures
            old(self)@.finalize_spec(&final(self)@, result),
            old(self)@.key_usable() ==> final(self)@.key_usable(),
    {
        let next_root: [u8; 32] = match &self.active.record {
            Record::Committed(c) => {
                if !c.committed {
                    return Err(ApplianceError::NotCommitted);
                }
                c.next_root
            },
            _ => {
                return Err(ApplianceError::NotCommitted);
            },
        };
        let reply: Result<u32, TropicError> = self.tropic.counter_get();
        assert(get_done(old(self)@.tropic, reply, self@.tropic));
        match in_step(self.h0, self.active.u, reply) {
            Err(e) => {
                return Err(e);
            },
            Ok(_) => {},
        }
        self.active = Active {
            root: next_root,
            u: self.active.u,
            status: Status::Ready,
            record: Record::Empty,
        };
        assert(get_done(old(self)@.tropic, reply, self@.tropic));
        Ok(next_root)
    }

    /// Cancels a prepared record, erasing its signing key.
    pub fn cancel(&mut self) -> (result: Result<(), ApplianceError>)
        ensures
            old(self)@.cancel_spec(&final(self)@, result),
            old(self)@.key_usable() ==> final(self)@.key_usable(),
    {
        match &mut self.active.record {
            Record::Prepared(p) => {
                zeroize_vec(&mut p.sk_hw);
                self.active.status = Status::Ready;
                self.active.record = Record::Empty;
                Ok(())
            },
            _ => Err(ApplianceError::WrongState),
        }
    }

    /// Marks the committed record as counter-committed and brings the active index in step.
    fn mark_committed(&mut self) -> (outcome: RecoverOutcome)
        requires
            old(self)@.active.record is Committed,
        ensures
            final(self)@.same_setup(&old(self)@),
            final(self)@.tropic == old(self)@.tropic,
            final(self)@.active@ == marked(old(self)@.active@),
            outcome == reemit(old(self)@.active.record),
    {
        let mut outcome: RecoverOutcome = RecoverOutcome::DowngradeOnline;
        let mut u: u64 = self.active.u;
        if let Record::Committed(c) = &mut self.active.record {
            c.committed = true;
            u = c.next_anchor_counter;
            outcome = RecoverOutcome::ReemitCommitted(c.next_root);
        }
        self.active.u = u;
        assert(self.active@ =~= marked(old(self)@.active@));
        outcome
    }

    /// Power-loss recovery. It works on the durable record and never signs: a committed record is
    /// emitted again and finalized as the same successor, by the caller.
    pub fn recover(&mut self) -> (outcome: RecoverOutcome)
        ensures
            old(self)@.recover_spec(&final(self)@, outcome),
            old(self)@.key_usable() ==> final(self)@.key_usable(),
    {
        if self.firmware_boundary_invalid || self.rmemory_map_invalid {
            return RecoverOutcome::DowngradeOnline;
        }
        let reply: Result<u32, TropicError> = self.tropic.counter_get();
        let ghost read = self@.tropic;
        assert(get_done(old(self)@.tropic, reply, read));
        let live_u: u64 = match live_index_of(self.h0, reply) {
            Ok(u) => u,
            Err(_) => {
                return RecoverOutcome::DowngradeOnline;
            },
        };
        match plan_recovery(&self.active, live_u) {
            RecoveryPlan::Answer(answer) => answer,
            RecoveryPlan::Mark => self.mark_committed(),
            RecoveryPlan::StepThenMark => {
                let step: Result<(), TropicError> = self.tropic.counter_update();
                assert(update_done(read, step, self@.tropic));
                match step {
                    Err(_) => RecoverOutcome::DowngradeOnline,
                    Ok(_) => self.mark_committed(),
                }
            },
            RecoveryPlan::Probe => {
                let again: Result<u32, TropicError> = self.tropic.counter_get();
                assert(get_done(read, again, self@.tropic));
                match again {
                    Err(_) => RecoverOutcome::DowngradeOnline,
                    Ok(h) => if h == 0 {
                        RecoverOutcome::ExhaustedOnlineOnly
                    } else {
                        RecoverOutcome::Accept(self.active.root)
                    },
                }
            },
        }
    }
}

/// A commit is its phases in their order: the candidate is signed and kept first, and the counter
/// moves from there.
pub proof fn lemma_commit_is_sign_then_step<T: Tropic, S: WitnessSig>(
    before: ApplianceView<T, S>,
    candidate: ApplianceView<T, S>,
    after: ApplianceView<T, S>,
    result: Result<(), ApplianceError>,
)
    requires
        before.sign_candidate_spec(&candidate, Ok(())),
        candidate.step_counter_spec(&after, result),
    ensures
        candidate.holds_candidate(),
        before.commit_spec(&after, result),
{
    let p = before.active.record@->Prepared_0;
    let reply = choose|reply: Result<u32, TropicError>|
        {
            &&& #[trigger] get_done(before.tropic, reply, candidate.tropic)
            &&& before.candidate_signed(p, reply, candidate.active, Ok(()))
        };
    assert(candidate.active.record@ is Committed);
    assert(candidate.holds_candidate());
    assert(before.commit_answered(p, reply, candidate.tropic, &after, result));
}

/// A commit whose first phase is refused is refused, for the same reason.
pub proof fn lemma_refused_signing_refuses_commit<T: Tropic, S: WitnessSig>(
    before: ApplianceView<T, S>,
    after: ApplianceView<T, S>,
    e: ApplianceError,
)
    requires
        before.sign_candidate_spec(&after, Err(e)),
    ensures
        after.active == before.active,
        before.commit_spec(&after, Err(e)),
{
    if before.commit_refusal() is None {
        let p = before.active.record@->Prepared_0;
        let reply = choose|reply: Result<u32, TropicError>|
            {
                &&& #[trigger] get_done(before.tropic, reply, after.tropic)
                &&& before.candidate_signed(p, reply, after.active, Err(e))
            };
        assert(before.commit_answered(p, reply, after.tropic, &after, Err(e)));
    }
}

} // verus!
