//! The receiver's acceptance predicate: an honest receiver accepts an offline root advance only
//! if every check holds.
//!
//! The recomputations and the counter arithmetic are done here. The checks that need the
//! receiver's own state, the tree proofs and the authenticity of the counter read, are supplied
//! by the receiver.
use crate::domain;
use crate::hash::blake3_hash;
use crate::root_advance::{
    cert_message, cert_message_spec, lemma_cert_message_in_full, lemma_transition_digest_in_full,
    lemma_witness_input_in_full, pk_hash, pk_hash_spec, transition_digest,
    transition_digest_spec, witness_input, witness_input_spec, CounterEvidence,
    CounterEvidenceView, OfflineRelease, OfflineReleaseView, Transition, TransitionView,
};
use crate::tropic::WitnessSig;
use crate::util::{ct_eq_32, le_bytes};
use vstd::prelude::*;
use vstd::string::*;

verus! {

/// The state verifier that the receiver supplies: the checks that need its tree and relationship
/// state. Each answer is a judgement on the arguments, by the state that the verifier holds.
///
/// The spec functions are ghost. Each has a default, some function of its arguments of which
/// nothing is known, so that an implementation outside of verified code has the three checks to
/// write. That such an implementation keeps to what the checks promise is then assumed.
pub trait DsmVerifier {
    /// Whether the parent state at `prev_root` commits to `anchor_counter`.
    closed spec fn commits(&self, prev_root: Seq<u8>, anchor_counter: u64) -> bool {
        let judge: spec_fn(&Self, Seq<u8>, u64) -> bool = arbitrary();
        judge(self, prev_root, anchor_counter)
    }

    /// Whether the proofs of a package establish its advance.
    closed spec fn proves(&self, t: TransitionView) -> bool {
        let judge: spec_fn(&Self, TransitionView) -> bool = arbitrary();
        judge(self, t)
    }

    /// Whether a package delivers the claimed object to this receiver.
    closed spec fn delivers(&self, t: TransitionView) -> bool {
        // Of another type than that of `proves`, so that the two are not the same function.
        let judge: spec_fn(TransitionView, &Self) -> bool = arbitrary();
        judge(t, self)
    }

    /// The parent state at `prev_root` commits to `anchor_counter`.
    fn root_commits_counter(&self, prev_root: &[u8; 32], anchor_counter: u64) -> (answer: bool)
        ensures
            answer == self.commits(prev_root@, anchor_counter),
    ;

    /// The transition proof verifies the advance from `prev_root` to `next_root`, by the package's
    /// leaf proofs.
    fn verify_transition(&self, t: &Transition) -> (answer: bool)
        ensures
            answer == self.proves(t@),
    ;

    /// The transfer delivers the claimed object or value to this receiver.
    fn delivers_to_receiver(&self, t: &Transition) -> (answer: bool)
        ensures
            answer == self.delivers(t@),
    ;
}

/// The counter verifier that the receiver supplies. It returns the live counter value that the
/// receiver itself read over an authenticated session, from `verifier_transcript` and not from the
/// claims of the host, or nothing if the transcript is absent or inauthentic for the pinned anchor.
///
/// The spec function is ghost. Its default is some function of its arguments of which nothing is
/// known; that an implementation outside of verified code keeps to the promise is assumed.
pub trait CounterVerifier {
    /// The counter value that the evidence attests for an anchor.
    closed spec fn attests(&self, anchor_id: Seq<u8>, ev: CounterEvidenceView) -> Option<u64> {
        let read: spec_fn(&Self, Seq<u8>, CounterEvidenceView) -> Option<u64> = arbitrary();
        read(self, anchor_id, ev)
    }

    /// The attested counter value.
    fn read_authentic_counter(&self, anchor_id: &[u8; 32], ev: &CounterEvidence) -> (attested:
        Option<u64>)
        ensures
            attested == self.attests(anchor_id@, ev@),
    ;
}

/// The contents of a receiver's context.
#[verifier::ext_equal]
pub struct VerifierContextView {
    pub accepted_prev_root: Seq<u8>,
    pub pinned_anchor_id: Seq<u8>,
    pub expected_receiver_challenge: Seq<u8>,
    pub expected_policy_hash: Seq<u8>,
    pub enrolled_counter: u64,
    pub exposure_cap_index: u64,
    pub anchor_uncompromised: bool,
}

/// What a receiver pinned or supplied for a transfer, and its policy gates.
pub struct VerifierContext<'a> {
    /// The parent root that the receiver accepts for the received object.
    pub accepted_prev_root: &'a [u8; 32],
    /// The enrolled anchor that the receiver pinned.
    pub pinned_anchor_id: &'a [u8; 32],
    /// The challenge that the receiver supplied.
    pub expected_receiver_challenge: &'a [u8; 32],
    /// The authority policy bound to the parent state.
    pub expected_policy_hash: &'a [u8; 32],
    /// Enrolled counter of the pinned anchor.
    pub enrolled_counter: u64,
    /// The largest index that the receiver accepts offline.
    pub exposure_cap_index: u64,
    /// No known firmware-boundary or physical compromise invalidates the anchor.
    pub anchor_uncompromised: bool,
}

impl<'a> View for VerifierContext<'a> {
    type V = VerifierContextView;

    open spec fn view(&self) -> VerifierContextView {
        VerifierContextView {
            accepted_prev_root: self.accepted_prev_root@,
            pinned_anchor_id: self.pinned_anchor_id@,
            expected_receiver_challenge: self.expected_receiver_challenge@,
            expected_policy_hash: self.expected_policy_hash@,
            enrolled_counter: self.enrolled_counter,
            exposure_cap_index: self.exposure_cap_index,
            anchor_uncompromised: self.anchor_uncompromised,
        }
    }
}

/// Which check failed.
#[derive(Clone, Copy, PartialEq, Eq, Debug, Structural)]
pub enum AcceptError {
    /// The package and the certificate disagree on the advance that they describe.
    NonCanonical,
    /// The parent root is not the accepted one, or the anchor is not the pinned one.
    PrevRootNotAccepted,
    /// The parent state does not commit to the anchor index.
    AnchorCounterUncommitted,
    /// The next index is not the anchor index plus one.
    BadNextIndex,
    /// The challenge is not the one that this receiver supplied.
    ChallengeMismatch,
    /// The transition digest does not recompute.
    DigestMismatch,
    /// The transition proof does not verify the advance.
    TransitionProofInvalid,
    /// The transfer does not deliver the object to this receiver.
    NotDeliveredToReceiver,
    /// The authority policy does not match the parent state.
    PolicyMismatch,
    /// The witness input does not recompute.
    WitnessInputMismatch,
    /// The public-key handle does not recompute.
    PkHashMismatch,
    /// The witness signature does not verify.
    WitnessSigInvalid,
    /// The counter evidence is inauthentic, or does not prove the step.
    CounterEvidenceInvalid,
    /// The transfer is beyond the offline exposure cap.
    ExposureCapExceeded,
    /// A compromise event invalidates the anchor.
    AnchorCompromised,
}

/// The package and the certificate describe the same advance, from the accepted parent root and by
/// the pinned anchor.
pub open spec fn origin_spec(rel: OfflineReleaseView, ctx: VerifierContextView) -> Result<
    (),
    AcceptError,
> {
    let t = rel.transition;
    let cert = rel.cert;
    if cert.prev_root != t.prev_root || cert.next_root != t.next_root || cert.anchor_counter
        != t.anchor_counter || cert.next_anchor_counter != t.next_anchor_counter {
        Err(AcceptError::NonCanonical)
    } else if t.prev_root != ctx.accepted_prev_root || cert.anchor_id != ctx.pinned_anchor_id {
        Err(AcceptError::PrevRootNotAccepted)
    } else {
        Ok(())
    }
}

/// The next index follows the anchor index, the challenge is the receiver's own, and the
/// certificate carries the digest `d`.
pub open spec fn request_spec(
    rel: OfflineReleaseView,
    ctx: VerifierContextView,
    d: Seq<u8>,
) -> Result<(), AcceptError> {
    if rel.transition.next_anchor_counter != rel.transition.anchor_counter + 1 {
        Err(AcceptError::BadNextIndex)
    } else if rel.cert.receiver_challenge != ctx.expected_receiver_challenge {
        Err(AcceptError::ChallengeMismatch)
    } else if d != rel.cert.transition_digest {
        Err(AcceptError::DigestMismatch)
    } else {
        Ok(())
    }
}

/// The policy is the expected one, and the certificate carries the witness input `x` and the
/// public-key handle `p_hw`.
pub open spec fn witness_spec(
    rel: OfflineReleaseView,
    ctx: VerifierContextView,
    x: Seq<u8>,
    p_hw: Seq<u8>,
) -> Result<(), AcceptError> {
    if rel.transition.authority_policy_hash != ctx.expected_policy_hash {
        Err(AcceptError::PolicyMismatch)
    } else if x != rel.cert.witness_input {
        Err(AcceptError::WitnessInputMismatch)
    } else if p_hw != rel.cert.pk_hash {
        Err(AcceptError::PkHashMismatch)
    } else {
        Ok(())
    }
}

/// The attested counter has counted down to `H0 - next index`, the transfer is within the exposure
/// cap, and the anchor is not compromised.
pub open spec fn counter_spec(
    rel: OfflineReleaseView,
    ctx: VerifierContextView,
    attested: Option<u64>,
) -> Result<(), AcceptError> {
    let next = rel.transition.next_anchor_counter;
    if ctx.enrolled_counter < next || attested is None || rel.counter.anchor_id
        != ctx.pinned_anchor_id || attested->0 != ctx.enrolled_counter - next {
        Err(AcceptError::CounterEvidenceInvalid)
    } else if next > ctx.exposure_cap_index {
        Err(AcceptError::ExposureCapExceeded)
    } else if !ctx.anchor_uncompromised {
        Err(AcceptError::AnchorCompromised)
    } else {
        Ok(())
    }
}

/// The first of the checks that fails, given what the receiver recomputed (`d`, `x`, `p_hw`, and
/// whether the witness signature is valid) and what its verifiers answered.
pub open spec fn verdict_spec(
    rel: OfflineReleaseView,
    ctx: VerifierContextView,
    d: Seq<u8>,
    x: Seq<u8>,
    p_hw: Seq<u8>,
    signed: bool,
    commits: bool,
    proves: bool,
    delivers: bool,
    attested: Option<u64>,
) -> Result<(), AcceptError> {
    if origin_spec(rel, ctx) is Err {
        origin_spec(rel, ctx)
    } else if !commits {
        Err(AcceptError::AnchorCounterUncommitted)
    } else if request_spec(rel, ctx, d) is Err {
        request_spec(rel, ctx, d)
    } else if !proves {
        Err(AcceptError::TransitionProofInvalid)
    } else if !delivers {
        Err(AcceptError::NotDeliveredToReceiver)
    } else if witness_spec(rel, ctx, x, p_hw) is Err {
        witness_spec(rel, ctx, x, p_hw)
    } else if !signed {
        Err(AcceptError::WitnessSigInvalid)
    } else {
        counter_spec(rel, ctx, attested)
    }
}

/// The witness input that a receiver recomputes for a release.
pub open spec fn recomputed_input(rel: OfflineReleaseView) -> Seq<u8> {
    witness_input_spec(
        rel.transition,
        transition_digest_spec(rel.transition),
        rel.cert.anchor_id,
        rel.cert.slot,
        rel.cert.receiver_challenge,
    )
}

/// The certificate message that a receiver recomputes for a release.
pub open spec fn recomputed_message(rel: OfflineReleaseView) -> Seq<u8> {
    cert_message_spec(
        rel.transition,
        transition_digest_spec(rel.transition),
        recomputed_input(rel),
        pk_hash_spec(rel.cert.pk_hw),
        rel.cert.anchor_id,
        rel.cert.slot,
        rel.cert.receiver_challenge,
    )
}

/// The verdict on a release, given what the receiver's verifiers answer.
pub open spec fn accept_spec<S: WitnessSig>(
    rel: OfflineReleaseView,
    ctx: VerifierContextView,
    commits: bool,
    proves: bool,
    delivers: bool,
    attested: Option<u64>,
) -> Result<(), AcceptError> {
    verdict_spec(
        rel,
        ctx,
        transition_digest_spec(rel.transition),
        recomputed_input(rel),
        pk_hash_spec(rel.cert.pk_hw),
        S::spec_verify(rel.cert.pk_hw, recomputed_message(rel), rel.cert.sigma),
        commits,
        proves,
        delivers,
        attested,
    )
}

/// Every check holds for a release.
pub open spec fn acceptable<S: WitnessSig>(
    rel: OfflineReleaseView,
    ctx: VerifierContextView,
    commits: bool,
    proves: bool,
    delivers: bool,
    attested: Option<u64>,
) -> bool {
    let t = rel.transition;
    let cert = rel.cert;
    // The package and the certificate agree.
    &&& cert.prev_root == t.prev_root
    &&& cert.next_root == t.next_root
    &&& cert.anchor_counter == t.anchor_counter
    &&& cert.next_anchor_counter == t.next_anchor_counter
    // What the receiver pinned and supplied.
    &&& t.prev_root == ctx.accepted_prev_root
    &&& cert.anchor_id == ctx.pinned_anchor_id
    &&& cert.receiver_challenge == ctx.expected_receiver_challenge
    &&& t.authority_policy_hash == ctx.expected_policy_hash
    // The step.
    &&& t.next_anchor_counter == t.anchor_counter + 1
    // What the receiver's state says.
    &&& commits
    &&& proves
    &&& delivers
    // What recomputes.
    &&& cert.transition_digest == transition_digest_spec(t)
    &&& cert.witness_input == recomputed_input(rel)
    &&& cert.pk_hash == pk_hash_spec(cert.pk_hw)
    &&& S::spec_verify(cert.pk_hw, recomputed_message(rel), cert.sigma)
    // The counter.
    &&& rel.counter.anchor_id == ctx.pinned_anchor_id
    &&& attested matches Some(live) && live + t.next_anchor_counter == ctx.enrolled_counter
    // Policy gates.
    &&& t.next_anchor_counter <= ctx.exposure_cap_index
    &&& ctx.anchor_uncompromised
}

/// A release is accepted exactly if every check holds.
pub proof fn lemma_accepts_iff_acceptable<S: WitnessSig>(
    rel: OfflineReleaseView,
    ctx: VerifierContextView,
    commits: bool,
    proves: bool,
    delivers: bool,
    attested: Option<u64>,
)
    ensures
        accept_spec::<S>(rel, ctx, commits, proves, delivers, attested) is Ok <==> acceptable::<S>(
            rel,
            ctx,
            commits,
            proves,
            delivers,
            attested,
        ),
{
}

/// The numbers that the host claims in the counter evidence decide nothing: two releases that
/// differ in them alone get the same verdict, given the same attested counter value.
pub proof fn lemma_claims_decide_nothing<S: WitnessSig>(
    rel: OfflineReleaseView,
    enrolled_claim: u64,
    live_claim: u64,
    index_claim: u64,
    ctx: VerifierContextView,
    commits: bool,
    proves: bool,
    delivers: bool,
    attested: Option<u64>,
)
    ensures
        accept_spec::<S>(rel, ctx, commits, proves, delivers, attested) == accept_spec::<S>(
            OfflineReleaseView {
                counter: CounterEvidenceView {
                    enrolled_counter: enrolled_claim,
                    live_counter_claim: live_claim,
                    derived_index_claim: index_claim,
                    ..rel.counter
                },
                ..rel
            },
            ctx,
            commits,
            proves,
            delivers,
            attested,
        ),
{
}

/// One counter value is evidence for one index: releases accepted for the same anchor against the
/// same attested value advance from the same index.
pub proof fn lemma_evidence_fixes_index<S: WitnessSig>(
    first: OfflineReleaseView,
    first_ctx: VerifierContextView,
    second: OfflineReleaseView,
    second_ctx: VerifierContextView,
    live: u64,
)
    requires
        first_ctx.enrolled_counter == second_ctx.enrolled_counter,
        accept_spec::<S>(first, first_ctx, true, true, true, Some(live)) is Ok,
        accept_spec::<S>(second, second_ctx, true, true, true, Some(live)) is Ok,
    ensures
        first.transition.anchor_counter == second.transition.anchor_counter,
        first.transition.next_anchor_counter == second.transition.next_anchor_counter,
{
}

/// Once the counter has counted below the value that proves the step from an index, no release
/// from that index is accepted any more, whatever else it holds.
pub proof fn lemma_no_evidence_after_further_steps<S: WitnessSig>(
    rel: OfflineReleaseView,
    ctx: VerifierContextView,
    commits: bool,
    proves: bool,
    delivers: bool,
    live: u64,
)
    requires
        live + rel.transition.next_anchor_counter < ctx.enrolled_counter,
    ensures
        accept_spec::<S>(rel, ctx, commits, proves, delivers, Some(live)) is Err,
{
}

/// Whether the package and the certificate describe the same advance, from the accepted parent
/// root and by the pinned anchor. A certificate spliced onto another package is rejected here.
pub fn check_origin(rel: &OfflineRelease, ctx: &VerifierContext) -> (checked: Result<
    (),
    AcceptError,
>)
    ensures
        checked == origin_spec(rel@, ctx@),
{
    let t = &rel.transition;
    let cert = &rel.cert;
    if !ct_eq_32(&cert.prev_root, &t.prev_root) || !ct_eq_32(&cert.next_root, &t.next_root)
        || cert.anchor_counter != t.anchor_counter || cert.next_anchor_counter
        != t.next_anchor_counter {
        return Err(AcceptError::NonCanonical);
    }
    if !ct_eq_32(&t.prev_root, ctx.accepted_prev_root) || !ct_eq_32(
        &cert.anchor_id,
        ctx.pinned_anchor_id,
    ) {
        return Err(AcceptError::PrevRootNotAccepted);
    }
    Ok(())
}

/// Whether the next index follows, the challenge is the receiver's own, and the certificate
/// carries the recomputed digest `d`.
pub fn check_request(rel: &OfflineRelease, ctx: &VerifierContext, d: &[u8; 32]) -> (checked: Result<
    (),
    AcceptError,
>)
    ensures
        checked == request_spec(rel@, ctx@, d@),
{
    if rel.transition.anchor_counter.checked_add(1) != Some(rel.transition.next_anchor_counter) {
        return Err(AcceptError::BadNextIndex);
    }
    if !ct_eq_32(&rel.cert.receiver_challenge, ctx.expected_receiver_challenge) {
        return Err(AcceptError::ChallengeMismatch);
    }
    if !ct_eq_32(d, &rel.cert.transition_digest) {
        return Err(AcceptError::DigestMismatch);
    }
    Ok(())
}

/// Whether the policy is the expected one and the certificate carries the recomputed witness input
/// `x` and public-key handle `p_hw`.
pub fn check_witness(
    rel: &OfflineRelease,
    ctx: &VerifierContext,
    x: &[u8; 32],
    p_hw: &[u8; 32],
) -> (checked: Result<(), AcceptError>)
    ensures
        checked == witness_spec(rel@, ctx@, x@, p_hw@),
{
    if !ct_eq_32(&rel.transition.authority_policy_hash, ctx.expected_policy_hash) {
        return Err(AcceptError::PolicyMismatch);
    }
    if !ct_eq_32(x, &rel.cert.witness_input) {
        return Err(AcceptError::WitnessInputMismatch);
    }
    if !ct_eq_32(p_hw, &rel.cert.pk_hash) {
        return Err(AcceptError::PkHashMismatch);
    }
    Ok(())
}

/// Whether the attested counter proves the step, and the policy gates hold. The value compared is
/// the one that the receiver read for itself.
pub fn check_counter(
    rel: &OfflineRelease,
    ctx: &VerifierContext,
    attested: Option<u64>,
) -> (checked: Result<(), AcceptError>)
    ensures
        checked == counter_spec(rel@, ctx@, attested),
{
    let next: u64 = rel.transition.next_anchor_counter;
    let expected: u64 = match ctx.enrolled_counter.checked_sub(next) {
        Some(live) => live,
        None => {
            return Err(AcceptError::CounterEvidenceInvalid);
        },
    };
    match attested {
        None => {
            return Err(AcceptError::CounterEvidenceInvalid);
        },
        Some(live) => {
            if !ct_eq_32(&rel.counter.anchor_id, ctx.pinned_anchor_id) || live != expected {
                return Err(AcceptError::CounterEvidenceInvalid);
            }
        },
    }
    if next > ctx.exposure_cap_index {
        return Err(AcceptError::ExposureCapExceeded);
    }
    if !ctx.anchor_uncompromised {
        return Err(AcceptError::AnchorCompromised);
    }
    Ok(())
}

/// The verdict on a release: accepted, or the first check that fails.
pub fn accept_offline<S: WitnessSig, D: DsmVerifier, C: CounterVerifier>(
    rel: &OfflineRelease,
    ctx: &VerifierContext,
    dsm: &D,
    counter: &C,
) -> (verdict: Result<(), AcceptError>)
    ensures
        verdict == accept_spec::<S>(
            rel@,
            ctx@,
            dsm.commits(rel.transition.prev_root@, rel.transition.anchor_counter),
            dsm.proves(rel.transition@),
            dsm.delivers(rel.transition@),
            counter.attests(ctx.pinned_anchor_id@, rel.counter@),
        ),
{
    let t: Transition = rel.transition.as_transition();
    let cert = &rel.cert;
    let origin = check_origin(rel, ctx);
    if origin.is_err() {
        return origin;
    }
    if !dsm.root_commits_counter(t.prev_root, t.anchor_counter) {
        return Err(AcceptError::AnchorCounterUncommitted);
    }
    let d: [u8; 32] = transition_digest(&t);
    let request = check_request(rel, ctx, &d);
    if request.is_err() {
        return request;
    }
    if !dsm.verify_transition(&t) {
        return Err(AcceptError::TransitionProofInvalid);
    }
    if !dsm.delivers_to_receiver(&t) {
        return Err(AcceptError::NotDeliveredToReceiver);
    }
    let x: [u8; 32] = witness_input(&t, &d, &cert.anchor_id, cert.slot, &cert.receiver_challenge);
    let p_hw: [u8; 32] = pk_hash(cert.pk_hw.as_slice());
    let witness = check_witness(rel, ctx, &x, &p_hw);
    if witness.is_err() {
        return witness;
    }
    let m: [u8; 32] = cert_message(
        &t,
        &d,
        &x,
        &p_hw,
        &cert.anchor_id,
        cert.slot,
        &cert.receiver_challenge,
    );
    if !S::verify(cert.pk_hw.as_slice(), &m, cert.sigma.as_slice()) {
        return Err(AcceptError::WitnessSigInvalid);
    }
    if ctx.enrolled_counter < t.next_anchor_counter {
        return Err(AcceptError::CounterEvidenceInvalid);
    }
    let attested: Option<u64> = counter.read_authentic_counter(ctx.pinned_anchor_id, &rel.counter);
    check_counter(rel, ctx, attested)
}

/// What an accepted release is, in terms of hashes and numbers: every check holds, the witness
/// input and the signed message end in the challenge that this receiver supplied, and the attested
/// counter plus the next index is the enrolled counter. Otherwise the verdict names the first check
/// that fails, in this order.
#[verifier::rlimit(40)]
pub proof fn lemma_verdict_in_full<S: WitnessSig>(
    rel: OfflineReleaseView,
    ctx: VerifierContextView,
    commits: bool,
    proves: bool,
    delivers: bool,
    attested: Option<u64>,
)
    ensures
        ({
            let v = accept_spec::<S>(rel, ctx, commits, proves, delivers, attested);
            let t = rel.transition;
            let cert = rel.cert;
            let c1 = cert.prev_root == t.prev_root && cert.next_root == t.next_root
                && cert.anchor_counter == t.anchor_counter && cert.next_anchor_counter
                == t.next_anchor_counter;
            let c2 = t.prev_root == ctx.accepted_prev_root && cert.anchor_id
                == ctx.pinned_anchor_id;
            let c3 = commits;
            let c4 = t.next_anchor_counter == t.anchor_counter + 1;
            let c5 = cert.receiver_challenge == ctx.expected_receiver_challenge;
            let c6 = cert.transition_digest == blake3_hash(
                domain::TRANSITION_DIGEST_V1.spec_bytes() + (t.relationship_id + t.object_id
                    + t.sender_device_id + t.recipient_device_id + t.prev_root + t.next_root
                    + le_bytes(t.anchor_counter as nat, 8) + le_bytes(
                    t.next_anchor_counter as nat,
                    8,
                ) + le_bytes(t.action_type as nat, 4) + (le_bytes(t.action_fields.len(), 4)
                    + t.action_fields) + t.payload_hash + (le_bytes(t.old_leaf_proof.len(), 4)
                    + t.old_leaf_proof) + (le_bytes(t.new_leaf_proof.len(), 4)
                    + t.new_leaf_proof) + t.authority_policy_hash),
            )@;
            let c7 = proves;
            let c8 = delivers;
            let c9 = t.authority_policy_hash == ctx.expected_policy_hash;
            let c10 = cert.witness_input == blake3_hash(
                domain::ROOT_ADVANCE_INPUT_V1.spec_bytes() + (t.prev_root + t.next_root
                    + le_bytes(t.anchor_counter as nat, 8) + le_bytes(
                    t.next_anchor_counter as nat,
                    8,
                ) + cert.transition_digest + t.recipient_device_id + t.object_id
                    + t.authority_policy_hash + cert.anchor_id + le_bytes(cert.slot as nat, 2)
                    + ctx.expected_receiver_challenge),
            )@;
            let c11 = cert.pk_hash == blake3_hash(domain::PK_HASH_V1.spec_bytes() + cert.pk_hw)@;
            let c12 = S::spec_verify(
                cert.pk_hw,
                blake3_hash(
                    domain::CERT_MESSAGE_V1.spec_bytes() + (t.prev_root + t.next_root + le_bytes(
                        t.anchor_counter as nat,
                        8,
                    ) + le_bytes(t.next_anchor_counter as nat, 8) + cert.transition_digest
                        + cert.witness_input + cert.pk_hash + t.recipient_device_id + t.object_id
                        + t.authority_policy_hash + cert.anchor_id + le_bytes(cert.slot as nat, 2)
                        + ctx.expected_receiver_challenge),
                )@,
                cert.sigma,
            );
            let c13 = rel.counter.anchor_id == ctx.pinned_anchor_id && (attested matches Some(
                live,
            ) && live + t.next_anchor_counter == ctx.enrolled_counter);
            let c14 = t.next_anchor_counter <= ctx.exposure_cap_index;
            let c15 = ctx.anchor_uncompromised;
            let ok1 = c1;
            let ok2 = ok1 && c2;
            let ok3 = ok2 && c3;
            let ok4 = ok3 && c4;
            let ok5 = ok4 && c5;
            let ok6 = ok5 && c6;
            let ok7 = ok6 && c7;
            let ok8 = ok7 && c8;
            let ok9 = ok8 && c9;
            let ok10 = ok9 && c10;
            let ok11 = ok10 && c11;
            let ok12 = ok11 && c12;
            let ok13 = ok12 && c13;
            let ok14 = ok13 && c14;
            let ok15 = ok14 && c15;
            &&& v == Err::<(), AcceptError>(AcceptError::NonCanonical) <==> !c1
            &&& v == Err::<(), AcceptError>(AcceptError::PrevRootNotAccepted) <==> ok1 && !c2
            &&& v == Err::<(), AcceptError>(AcceptError::AnchorCounterUncommitted) <==> ok2 && !c3
            &&& v == Err::<(), AcceptError>(AcceptError::BadNextIndex) <==> ok3 && !c4
            &&& v == Err::<(), AcceptError>(AcceptError::ChallengeMismatch) <==> ok4 && !c5
            &&& v == Err::<(), AcceptError>(AcceptError::DigestMismatch) <==> ok5 && !c6
            &&& v == Err::<(), AcceptError>(AcceptError::TransitionProofInvalid) <==> ok6 && !c7
            &&& v == Err::<(), AcceptError>(AcceptError::NotDeliveredToReceiver) <==> ok7 && !c8
            &&& v == Err::<(), AcceptError>(AcceptError::PolicyMismatch) <==> ok8 && !c9
            &&& v == Err::<(), AcceptError>(AcceptError::WitnessInputMismatch) <==> ok9 && !c10
            &&& v == Err::<(), AcceptError>(AcceptError::PkHashMismatch) <==> ok10 && !c11
            &&& v == Err::<(), AcceptError>(AcceptError::WitnessSigInvalid) <==> ok11 && !c12
            &&& v == Err::<(), AcceptError>(AcceptError::CounterEvidenceInvalid) <==> ok12 && !c13
            &&& v == Err::<(), AcceptError>(AcceptError::ExposureCapExceeded) <==> ok13 && !c14
            &&& v == Err::<(), AcceptError>(AcceptError::AnchorCompromised) <==> ok14 && !c15
            &&& v is Ok <==> ok15
        }),
{
    lemma_transition_digest_in_full(rel.transition);
    lemma_witness_input_in_full(
        rel.transition,
        rel.cert.transition_digest,
        rel.cert.anchor_id,
        rel.cert.slot,
        rel.cert.receiver_challenge,
    );
    lemma_cert_message_in_full(
        rel.transition,
        rel.cert.transition_digest,
        rel.cert.witness_input,
        rel.cert.pk_hw,
        rel.cert.pk_hash,
        rel.cert.anchor_id,
        rel.cert.slot,
        rel.cert.receiver_challenge,
    );
}

/// A release is accepted by one kind of receiver: two that accept it hold the same parent root,
/// have pinned the same anchor, supplied the same challenge and expect the same policy; and if they
/// were attested the same counter value, they know the same enrolled one.
pub proof fn lemma_acceptance_pins_the_receiver<S: WitnessSig>(
    rel: OfflineReleaseView,
    a: VerifierContextView,
    a_attested: Option<u64>,
    b: VerifierContextView,
    b_attested: Option<u64>,
)
    requires
        accept_spec::<S>(rel, a, true, true, true, a_attested) is Ok,
        accept_spec::<S>(rel, b, true, true, true, b_attested) is Ok,
    ensures
        a.accepted_prev_root == b.accepted_prev_root,
        a.pinned_anchor_id == b.pinned_anchor_id,
        a.expected_receiver_challenge == b.expected_receiver_challenge,
        a.expected_policy_hash == b.expected_policy_hash,
        a_attested == b_attested ==> a.enrolled_counter == b.enrolled_counter,
{
}

/// No answer of the receiver's verifiers makes up for another: a release that is accepted is not
/// accepted if any one of them says no or the chip gives another counter value or none.
pub proof fn lemma_every_answer_counts<S: WitnessSig>(
    rel: OfflineReleaseView,
    ctx: VerifierContextView,
    attested: Option<u64>,
    commits: bool,
    proves: bool,
    delivers: bool,
    other: Option<u64>,
)
    requires
        accept_spec::<S>(rel, ctx, true, true, true, attested) is Ok,
    ensures
        accept_spec::<S>(rel, ctx, commits, proves, delivers, other) is Ok <==> commits && proves
            && delivers && other == attested,
{
}

} // verus!
