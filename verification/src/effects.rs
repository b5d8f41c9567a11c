//! What each operation of the appliance does, written out in hashes, counter values and fields of
//! the record: what is sent to the chip, what is kept, and which error is owed when.
use crate::appliance::{
    in_step_spec, live_index_spec, marked, movable_spec, plan_spec, step_error_spec, ActiveView,
    ApplianceError, ApplianceView, PreparedRecordView, Record, RecordView, RecoverOutcome,
    RecoveryPlan, Status,
};
use crate::domain;
use crate::hash::{blake3_hash, blake3_keyed_hash};
use crate::root_advance::{
    lemma_cert_message_in_full, lemma_transition_digest_in_full, lemma_witness_input_in_full,
    lemma_witness_key_in_full, pk_hash_spec, transition_digest_spec, witness_key_spec,
    TransitionView,
};
use crate::tropic::{get_done, mac_done, update_done, Tropic, TropicError, WitnessSig};
use crate::util::le_bytes;
use vstd::prelude::*;
use vstd::string::*;

verus! {

/// An index is live at the counter value that adds up with it to the enrolled one. A value above
/// the enrolled one is a mismatch, and a failure of the chip is passed on.
pub proof fn lemma_live_index_adds_up(h0: u32, reply: Result<u32, TropicError>)
    ensures
        forall|u: u64|
            live_index_spec(h0, reply) == Ok::<u64, ApplianceError>(u) <==> (reply matches Ok(h)
                && h + u == h0),
        live_index_spec(h0, reply) == Err::<u64, ApplianceError>(ApplianceError::CounterMismatch)
            <==> (reply matches Ok(h) && h > h0),
        forall|e: TropicError|
            reply == Err::<u32, TropicError>(e) ==> live_index_spec(h0, reply) == Err::<
                u64,
                ApplianceError,
            >(ApplianceError::Tropic(e)),
{
}

/// An index is in step exactly at that counter value.
pub proof fn lemma_in_step_adds_up(h0: u32, u: u64, reply: Result<u32, TropicError>)
    ensures
        in_step_spec(h0, u, reply) is Ok <==> (reply matches Ok(h) && h + u == h0),
        in_step_spec(h0, u, reply) == Err::<(), ApplianceError>(ApplianceError::CounterMismatch)
            <==> (reply matches Ok(h) && h + u != h0),
        forall|e: TropicError|
            reply == Err::<u32, TropicError>(e) ==> in_step_spec(h0, u, reply) == Err::<
                (),
                ApplianceError,
            >(ApplianceError::Tropic(e)),
{
}

/// A commit may step from exactly that counter value, unless it is zero.
pub proof fn lemma_movable_adds_up(h0: u32, u: u64, reply: Result<u32, TropicError>)
    ensures
        forall|h: u32|
            movable_spec(h0, u, reply) == Ok::<u32, ApplianceError>(h) <==> reply == Ok::<
                u32,
                TropicError,
            >(h) && h > 0 && h + u == h0,
        movable_spec(h0, u, reply) == Err::<u32, ApplianceError>(ApplianceError::CounterExhausted)
            <==> reply == Ok::<u32, TropicError>(0),
        movable_spec(h0, u, reply) == Err::<u32, ApplianceError>(ApplianceError::CounterMismatch)
            <==> (reply matches Ok(h) && h > 0 && h + u != h0),
        forall|e: TropicError|
            reply == Err::<u32, TropicError>(e) ==> movable_spec(h0, u, reply) == Err::<
                u32,
                ApplianceError,
            >(ApplianceError::Tropic(e)),
{
}

/// Only an exhausted counter is reported as one; another failure is passed on as it is.
pub proof fn lemma_step_error_tells_exhaustion(e: TropicError)
    ensures
        step_error_spec(e) == ApplianceError::CounterExhausted <==> e is CounterExhausted,
        !(e is CounterExhausted) ==> step_error_spec(e) == ApplianceError::Tropic(e),
{
}

/// A request to prepare is refused before the chip is asked exactly if the appliance is not ready,
/// or else the parent is not the active root, or else the index is not the active one or the next
/// index is not its successor. Nothing changes then.
pub proof fn lemma_prepare_refusals<T: Tropic, S: WitnessSig>(
    before: ApplianceView<T, S>,
    t: TransitionView,
    challenge: Seq<u8>,
    after: ApplianceView<T, S>,
    result: Result<(), ApplianceError>,
)
    requires
        before.prepare_spec(t, challenge, &after, result),
    ensures
        ({
            let ready = before.active.status is Ready;
            let parent = t.prev_root == before.active.root@;
            let index = t.anchor_counter == before.active.u && t.next_anchor_counter
                == before.active.u + 1;
            &&& result == Err::<(), ApplianceError>(ApplianceError::WrongState) <==> !ready
            &&& result == Err::<(), ApplianceError>(ApplianceError::PrevRootMismatch) <==> ready
                && !parent
            &&& result == Err::<(), ApplianceError>(ApplianceError::IndexMismatch) <==> ready
                && parent && !index
            &&& !(ready && parent && index) ==> after == before
        }),
{
}

/// What a preparation asks of the chip: first the counter, and only where it adds up with the
/// active index to the enrolled value, one witness call on the appliance's slot, with the input
/// that binds the transition, the anchor, the slot and, at its end, the challenge. The replies
/// decide.
pub proof fn lemma_prepare_asks_the_chip<T: Tropic, S: WitnessSig>(
    before: ApplianceView<T, S>,
    t: TransitionView,
    challenge: Seq<u8>,
    after: ApplianceView<T, S>,
    result: Result<(), ApplianceError>,
) -> (replies: (Result<u32, TropicError>, T, Result<[u8; 32], TropicError>))
    requires
        before.prepare_spec(t, challenge, &after, result),
        before.active.status is Ready,
        t.prev_root == before.active.root@,
        t.anchor_counter == before.active.u,
        t.next_anchor_counter == before.active.u + 1,
    ensures
        ({
            let (reply, read, witness) = replies;
            let d = blake3_hash(
                domain::TRANSITION_DIGEST_V1.spec_bytes() + (t.relationship_id + t.object_id
                    + t.sender_device_id + t.recipient_device_id + t.prev_root + t.next_root
                    + le_bytes(t.anchor_counter as nat, 8) + le_bytes(
                    t.next_anchor_counter as nat,
                    8,
                ) + le_bytes(t.action_type as nat, 4) + (le_bytes(t.action_fields.len(), 4)
                    + t.action_fields) + t.payload_hash + (le_bytes(t.old_leaf_proof.len(), 4)
                    + t.old_leaf_proof) + (le_bytes(t.new_leaf_proof.len(), 4)
                    + t.new_leaf_proof) + t.authority_policy_hash),
            )@;
            let x = blake3_hash(
                domain::ROOT_ADVANCE_INPUT_V1.spec_bytes() + (t.prev_root + t.next_root + le_bytes(
                    t.anchor_counter as nat,
                    8,
                ) + le_bytes(t.next_anchor_counter as nat, 8) + d + t.recipient_device_id
                    + t.object_id + t.authority_policy_hash + before.anchor_id@ + le_bytes(
                    before.slot as nat,
                    2,
                ) + challenge),
            )@;
            &&& get_done(before.tropic, reply, read)
            &&& reply matches Err(e) ==> result == Err::<(), ApplianceError>(
                ApplianceError::Tropic(e),
            ) && after.tropic == read
            &&& reply matches Ok(h) ==> if h + before.active.u != before.h0 {
                &&& result == Err::<(), ApplianceError>(ApplianceError::CounterMismatch)
                &&& after.tropic == read
            } else {
                &&& mac_done(read, before.slot, x, witness, after.tropic)
                &&& result is Ok <==> witness is Ok
                &&& witness matches Err(e) ==> result == Err::<(), ApplianceError>(
                    ApplianceError::Tropic(e),
                )
            }
            &&& result is Err ==> after.active == before.active
        }),
{
    lemma_transition_digest_in_full(t);
    lemma_witness_input_in_full(
        t,
        transition_digest_spec(t),
        before.anchor_id@,
        before.slot,
        challenge,
    );
    let (reply, read) = choose|reply: Result<u32, TropicError>, read: T|
        {
            &&& #[trigger] get_done(before.tropic, reply, read)
            &&& before.prepare_answered(t, challenge, reply, read, &after, result)
        };
    let x = before.input_spec(t, challenge);
    if in_step_spec(before.h0, before.active.u, reply) is Ok {
        let witness = choose|w: Result<[u8; 32], TropicError>|
            {
                &&& #[trigger] mac_done(read, before.slot, x, w, after.tropic)
                &&& match w {
                    Err(e) => {
                        &&& result == Err::<(), ApplianceError>(ApplianceError::Tropic(e))
                        &&& after.active == before.active
                    },
                    Ok(w) => {
                        &&& result is Ok
                        &&& after.active@ == before.prepared_spec(t, challenge, w@)
                    },
                }
            };
        (reply, read, witness)
    } else {
        (reply, read, Err(TropicError::Comm))
    }
}

/// What a successful preparation keeps, of the witness `w` that the chip gave for its own input:
/// the key pair is the scheme's for the keyed BLAKE3 hash whose key is `w` itself, and the
/// certificate message ends in the challenge. Root and index stay, and so does the setup.
pub proof fn lemma_prepared_record<T: Tropic, S: WitnessSig>(
    before: ApplianceView<T, S>,
    t: TransitionView,
    challenge: Seq<u8>,
    after: ApplianceView<T, S>,
) -> (replies: (u32, T, [u8; 32]))
    requires
        before.prepare_spec(t, challenge, &after, Ok(())),
    ensures
        ({
            let (h, read, w) = replies;
            let d = blake3_hash(
                domain::TRANSITION_DIGEST_V1.spec_bytes() + (t.relationship_id + t.object_id
                    + t.sender_device_id + t.recipient_device_id + t.prev_root + t.next_root
                    + le_bytes(t.anchor_counter as nat, 8) + le_bytes(
                    t.next_anchor_counter as nat,
                    8,
                ) + le_bytes(t.action_type as nat, 4) + (le_bytes(t.action_fields.len(), 4)
                    + t.action_fields) + t.payload_hash + (le_bytes(t.old_leaf_proof.len(), 4)
                    + t.old_leaf_proof) + (le_bytes(t.new_leaf_proof.len(), 4)
                    + t.new_leaf_proof) + t.authority_policy_hash),
            )@;
            let x = blake3_hash(
                domain::ROOT_ADVANCE_INPUT_V1.spec_bytes() + (t.prev_root + t.next_root + le_bytes(
                    t.anchor_counter as nat,
                    8,
                ) + le_bytes(t.next_anchor_counter as nat, 8) + d + t.recipient_device_id
                    + t.object_id + t.authority_policy_hash + before.anchor_id@ + le_bytes(
                    before.slot as nat,
                    2,
                ) + challenge),
            )@;
            let seed = blake3_keyed_hash(
                w@,
                domain::ROOT_ADVANCE_WITNESS_KEY_V1.spec_bytes() + (x + t.prev_root + t.next_root
                    + le_bytes(t.anchor_counter as nat, 8) + le_bytes(
                    t.next_anchor_counter as nat,
                    8,
                ) + before.anchor_id@ + le_bytes(before.slot as nat, 2)
                    + t.authority_policy_hash),
            )@;
            &&& h + before.active.u == before.h0
            &&& get_done(before.tropic, Ok(h), read)
            &&& mac_done(read, before.slot, x, Ok(w), after.tropic)
            &&& after.active.root@ == before.active.root@
            &&& after.active.u == before.active.u
            &&& after.active.status is Prepared
            &&& after.active.record@ matches RecordView::Prepared(p) && ({
                &&& p.txn == t
                &&& p.receiver_challenge == challenge
                &&& p.digest == d
                &&& p.witness_input == x
                &&& (p.sk_hw, p.pk_hw) == S::spec_keygen(seed)
                &&& p.p_hw == blake3_hash(domain::PK_HASH_V1.spec_bytes() + p.pk_hw)@
                &&& p.cert_message == blake3_hash(
                domain::CERT_MESSAGE_V1.spec_bytes() + (t.prev_root + t.next_root + le_bytes(
                    t.anchor_counter as nat,
                    8,
                ) + le_bytes(t.next_anchor_counter as nat, 8) + d + x + p.p_hw
                    + t.recipient_device_id + t.object_id + t.authority_policy_hash
                    + before.anchor_id@ + le_bytes(before.slot as nat, 2) + challenge),
            )@
            })
            &&& after.h0 == before.h0
            &&& after.anchor_id == before.anchor_id
            &&& after.slot == before.slot
            &&& after.firmware_boundary_invalid == before.firmware_boundary_invalid
            &&& after.rmemory_map_invalid == before.rmemory_map_invalid
        }),
{
    let d = transition_digest_spec(t);
    let x = before.input_spec(t, challenge);
    lemma_transition_digest_in_full(t);
    lemma_witness_input_in_full(t, d, before.anchor_id@, before.slot, challenge);
    let (reply, read) = choose|reply: Result<u32, TropicError>, read: T|
        {
            &&& #[trigger] get_done(before.tropic, reply, read)
            &&& before.prepare_answered(t, challenge, reply, read, &after, Ok(()))
        };
    let witness = choose|w: Result<[u8; 32], TropicError>|
        {
            &&& #[trigger] mac_done(read, before.slot, x, w, after.tropic)
            &&& w matches Ok(w) && after.active@ == before.prepared_spec(t, challenge, w@)
        };
    let w = witness->Ok_0;
    let k = witness_key_spec(w@, x, t, before.anchor_id@, before.slot);
    let pk = S::spec_keygen(k).1;
    lemma_witness_key_in_full(w@, x, t, before.anchor_id@, before.slot);
    lemma_cert_message_in_full(
        t,
        d,
        x,
        pk,
        pk_hash_spec(pk),
        before.anchor_id@,
        before.slot,
        challenge,
    );
    (reply->Ok_0, read, w)
}

/// What a witness output makes of a request, whatever the digest and the input are: the signing key
/// comes from the output as the key of the hash.
pub proof fn lemma_witnessed_record_in_full<T: Tropic, S: WitnessSig>(
    app: ApplianceView<T, S>,
    t: TransitionView,
    d: Seq<u8>,
    x: Seq<u8>,
    challenge: Seq<u8>,
    w: [u8; 32],
)
    ensures
        ({
            let p = app.witnessed_spec(t, d, x, challenge, w@);
            let seed = blake3_keyed_hash(
                w@,
                domain::ROOT_ADVANCE_WITNESS_KEY_V1.spec_bytes() + (x + t.prev_root + t.next_root
                    + le_bytes(t.anchor_counter as nat, 8) + le_bytes(
                    t.next_anchor_counter as nat,
                    8,
                ) + app.anchor_id@ + le_bytes(app.slot as nat, 2)
                    + t.authority_policy_hash),
            )@;
            &&& p.txn == t
            &&& p.digest == d
            &&& p.witness_input == x
            &&& p.receiver_challenge == challenge
            &&& (p.sk_hw, p.pk_hw) == S::spec_keygen(seed)
            &&& p.p_hw == blake3_hash(domain::PK_HASH_V1.spec_bytes() + p.pk_hw)@
            &&& p.cert_message == blake3_hash(
                domain::CERT_MESSAGE_V1.spec_bytes() + (t.prev_root + t.next_root + le_bytes(
                    t.anchor_counter as nat,
                    8,
                ) + le_bytes(t.next_anchor_counter as nat, 8) + d + x + p.p_hw
                    + t.recipient_device_id + t.object_id + t.authority_policy_hash
                    + app.anchor_id@ + le_bytes(app.slot as nat, 2) + challenge),
            )@
        }),
{
    let k = witness_key_spec(w@, x, t, app.anchor_id@, app.slot);
    let pk = S::spec_keygen(k).1;
    lemma_witness_key_in_full(w@, x, t, app.anchor_id@, app.slot);
    lemma_cert_message_in_full(
        t,
        d,
        x,
        pk,
        pk_hash_spec(pk),
        app.anchor_id@,
        app.slot,
        challenge,
    );
}

/// A commit is refused before the chip is asked exactly if no record is prepared, or else its
/// signing key is gone, or else its parent is not the active root. Nothing changes then.
pub proof fn lemma_commit_refusals<T: Tropic, S: WitnessSig>(
    before: ApplianceView<T, S>,
    after: ApplianceView<T, S>,
    result: Result<(), ApplianceError>,
)
    requires
        before.commit_spec(&after, result) || before.sign_candidate_spec(&after, result),
    ensures
        ({
            let p = before.active.record@->Prepared_0;
            let prepared = before.active.record@ is Prepared;
            let keyed = p.sk_hw.len() > 0;
            let parent = p.txn.prev_root == before.active.root@;
            &&& result == Err::<(), ApplianceError>(ApplianceError::WrongState) <==> !prepared
            &&& result == Err::<(), ApplianceError>(ApplianceError::WitnessKeyLost) <==> prepared
                && !keyed
            &&& result == Err::<(), ApplianceError>(ApplianceError::PrevRootMismatch)
                <==> prepared && keyed && !parent
            &&& !(prepared && keyed && parent) ==> after == before
        }),
{
}

/// What a commit asks of the chip: first the counter, and only where it is not zero and adds up
/// with the record's index to the enrolled value, one counter step. The replies decide.
pub proof fn lemma_commit_asks_the_chip<T: Tropic, S: WitnessSig>(
    before: ApplianceView<T, S>,
    after: ApplianceView<T, S>,
    result: Result<(), ApplianceError>,
) -> (replies: (Result<u32, TropicError>, T, Result<(), TropicError>))
    requires
        before.commit_spec(&after, result),
        before.active.record@ matches RecordView::Prepared(p) && p.sk_hw.len() > 0
            && p.txn.prev_root == before.active.root@,
    ensures
        ({
            let (reply, read, step) = replies;
            let u = before.active.record@->Prepared_0.txn.anchor_counter;
            &&& get_done(before.tropic, reply, read)
            &&& reply matches Err(e) ==> result == Err::<(), ApplianceError>(
                ApplianceError::Tropic(e),
            )
            &&& reply == Ok::<u32, TropicError>(0) ==> result == Err::<(), ApplianceError>(
                ApplianceError::CounterExhausted,
            )
            &&& reply matches Ok(h) ==> h > 0 && h + u != before.h0 ==> result == Err::<
                (),
                ApplianceError,
            >(ApplianceError::CounterMismatch)
            &&& if reply matches Ok(h) && h > 0 && h + u == before.h0 {
                &&& update_done(read, step, after.tropic)
                &&& step is Ok ==> result is Ok
                &&& step matches Err(e) ==> result == Err::<(), ApplianceError>(
                    if e is CounterExhausted {
                        ApplianceError::CounterExhausted
                    } else {
                        ApplianceError::Tropic(e)
                    },
                )
                &&& after.active.record@ is Committed
            } else {
                &&& after.active == before.active
                &&& after.tropic == read
            }
        }),
{
    let p = before.active.record@->Prepared_0;
    let (reply, read) = choose|reply: Result<u32, TropicError>, read: T|
        {
            &&& #[trigger] get_done(before.tropic, reply, read)
            &&& before.commit_answered(p, reply, read, &after, result)
        };
    if let Ok(h) = movable_spec(before.h0, p.txn.anchor_counter, reply) {
        let step = choose|step: Result<(), TropicError>|
            {
                &&& #[trigger] update_done(read, step, after.tropic)
                &&& match step {
                    Err(e) => result == Err::<(), ApplianceError>(step_error_spec(e)),
                    Ok(_) => result is Ok,
                }
            };
        (reply, read, step)
    } else {
        (reply, read, Err(TropicError::Comm))
    }
}

/// What a commit that has signed leaves behind, whether or not its counter step succeeded: the
/// release carries the prepared transition, material and challenge and the appliance's anchor and
/// slot, its signature is the prepared key's over the prepared message, and the counter value that
/// it claims is one below the value that adds up with the record's index to the enrolled one. Only
/// a success is marked as committed and moves the active index. The root stays.
pub proof fn lemma_committed_record<T: Tropic, S: WitnessSig>(
    before: ApplianceView<T, S>,
    p: PreparedRecordView,
    after: ApplianceView<T, S>,
    result: Result<(), ApplianceError>,
)
    requires
        before.commit_spec(&after, result),
        before.active.record@ == RecordView::Prepared(p),
        after.active.record@ is Committed,
    ensures
        after.active.root@ == before.active.root@,
        after.active.status is Committed,
        after.active.u == if result is Ok {
            p.txn.next_anchor_counter
        } else {
            before.active.u
        },
        after.active.record@ matches RecordView::Committed(c) && ({
            let cert = c.release.cert;
            let counter = c.release.counter;
            &&& c.committed == (result is Ok)
            &&& c.prev_root == p.txn.prev_root
            &&& c.next_root == p.txn.next_root
            &&& c.anchor_counter == p.txn.anchor_counter
            &&& c.next_anchor_counter == p.txn.next_anchor_counter
            &&& c.release.transition == p.txn
            &&& cert.prev_root == p.txn.prev_root
            &&& cert.next_root == p.txn.next_root
            &&& cert.anchor_counter == p.txn.anchor_counter
            &&& cert.next_anchor_counter == p.txn.next_anchor_counter
            &&& cert.transition_digest == p.digest
            &&& cert.witness_input == p.witness_input
            &&& cert.pk_hash == p.p_hw
            &&& cert.pk_hw == p.pk_hw
            &&& cert.sigma == S::spec_sign(p.sk_hw, p.cert_message)
            &&& cert.anchor_id == before.anchor_id@
            &&& cert.slot == before.slot
            &&& cert.receiver_challenge == p.receiver_challenge
            &&& counter.anchor_id == before.anchor_id@
            &&& counter.enrolled_counter == before.h0
            &&& counter.live_counter_claim + 1 + p.txn.anchor_counter == before.h0
            &&& counter.derived_index_claim == p.txn.next_anchor_counter
            &&& counter.verifier_transcript.len() == 0
        }),
        result is Ok ==> after.tropic.counter()
            == (after.active.record@->Committed_0).release.counter.live_counter_claim,
{
}

/// The first phase of a commit signs and asks the chip for its counter alone: the release claims
/// one below the value that was read, and neither root, index nor counter moves.
pub proof fn lemma_signed_candidate<T: Tropic, S: WitnessSig>(
    before: ApplianceView<T, S>,
    p: PreparedRecordView,
    after: ApplianceView<T, S>,
    result: Result<(), ApplianceError>,
) -> (reply: Result<u32, TropicError>)
    requires
        before.sign_candidate_spec(&after, result),
        before.active.record@ == RecordView::Prepared(p),
        p.sk_hw.len() > 0,
        p.txn.prev_root == before.active.root@,
    ensures
        get_done(before.tropic, reply, after.tropic),
        result is Ok <==> (reply matches Ok(h) && h > 0 && h + p.txn.anchor_counter == before.h0),
        reply matches Err(e) ==> result == Err::<(), ApplianceError>(ApplianceError::Tropic(e)),
        reply == Ok::<u32, TropicError>(0) ==> result == Err::<(), ApplianceError>(
            ApplianceError::CounterExhausted,
        ),
        reply matches Ok(h) ==> h > 0 && h + p.txn.anchor_counter != before.h0 ==> result == Err::<
            (),
            ApplianceError,
        >(ApplianceError::CounterMismatch),
        after.h0 == before.h0,
        after.anchor_id == before.anchor_id,
        after.slot == before.slot,
        after.firmware_boundary_invalid == before.firmware_boundary_invalid,
        after.rmemory_map_invalid == before.rmemory_map_invalid,
        result is Err ==> after.active == before.active,
        result is Ok ==> after.active.root@ == before.active.root@ && after.active.u
            == before.active.u && after.active.status is Committed,
        result is Ok ==> (after.active.record@ matches RecordView::Committed(c) && ({
            let cert = c.release.cert;
            let counter = c.release.counter;
            &&& !c.committed
            &&& c.prev_root == p.txn.prev_root
            &&& c.next_root == p.txn.next_root
            &&& c.anchor_counter == p.txn.anchor_counter
            &&& c.next_anchor_counter == p.txn.next_anchor_counter
            &&& c.release.transition == p.txn
            &&& cert.prev_root == p.txn.prev_root
            &&& cert.next_root == p.txn.next_root
            &&& cert.anchor_counter == p.txn.anchor_counter
            &&& cert.next_anchor_counter == p.txn.next_anchor_counter
            &&& cert.transition_digest == p.digest
            &&& cert.witness_input == p.witness_input
            &&& cert.pk_hash == p.p_hw
            &&& cert.pk_hw == p.pk_hw
            &&& cert.sigma == S::spec_sign(p.sk_hw, p.cert_message)
            &&& cert.anchor_id == before.anchor_id@
            &&& cert.slot == before.slot
            &&& cert.receiver_challenge == p.receiver_challenge
            &&& counter.anchor_id == before.anchor_id@
            &&& counter.enrolled_counter == before.h0
            &&& counter.live_counter_claim + 1 == reply->Ok_0
            &&& counter.derived_index_claim == p.txn.next_anchor_counter
            &&& counter.verifier_transcript.len() == 0
        })),
{
    choose|reply: Result<u32, TropicError>|
        {
            &&& #[trigger] get_done(before.tropic, reply, after.tropic)
            &&& before.candidate_signed(p, reply, after.active, result)
        }
}

/// The release of a prepared record, stepping from the counter value `h`, field by field.
pub proof fn lemma_release_in_full<T: Tropic, S: WitnessSig>(
    app: ApplianceView<T, S>,
    p: PreparedRecordView,
    h: u32,
)
    requires
        h > 0,
    ensures
        ({
            let rel = app.release_spec(p, h);
            &&& rel.transition == p.txn
            &&& rel.cert.prev_root == p.txn.prev_root
            &&& rel.cert.next_root == p.txn.next_root
            &&& rel.cert.anchor_counter == p.txn.anchor_counter
            &&& rel.cert.next_anchor_counter == p.txn.next_anchor_counter
            &&& rel.cert.transition_digest == p.digest
            &&& rel.cert.witness_input == p.witness_input
            &&& rel.cert.pk_hash == p.p_hw
            &&& rel.cert.pk_hw == p.pk_hw
            &&& rel.cert.sigma == S::spec_sign(p.sk_hw, p.cert_message)
            &&& rel.cert.anchor_id == app.anchor_id@
            &&& rel.cert.slot == app.slot
            &&& rel.cert.receiver_challenge == p.receiver_challenge
            &&& rel.counter.anchor_id == app.anchor_id@
            &&& rel.counter.enrolled_counter == app.h0
            &&& rel.counter.live_counter_claim + 1 == h
            &&& rel.counter.derived_index_claim == p.txn.next_anchor_counter
            &&& rel.counter.verifier_transcript.len() == 0
        }),
{
}

/// The second phase of a commit: refused without an unmarked candidate; otherwise one counter step,
/// whose success marks the candidate and moves the active index to the candidate's next one, and
/// whose failure leaves the candidate as it was.
pub proof fn lemma_counter_step_in_full<T: Tropic, S: WitnessSig>(
    before: ApplianceView<T, S>,
    after: ApplianceView<T, S>,
    result: Result<(), ApplianceError>,
) -> (step: Result<(), TropicError>)
    requires
        before.step_counter_spec(&after, result),
    ensures
        result == Err::<(), ApplianceError>(ApplianceError::WrongState) <==> !(
        before.active.record@ matches RecordView::Committed(c) && !c.committed),
        result == Err::<(), ApplianceError>(ApplianceError::WrongState) ==> after == before,
        after.h0 == before.h0,
        after.anchor_id == before.anchor_id,
        after.slot == before.slot,
        after.firmware_boundary_invalid == before.firmware_boundary_invalid,
        after.rmemory_map_invalid == before.rmemory_map_invalid,
        before.active.record@ matches RecordView::Committed(c) ==> !c.committed ==> ({
            &&& update_done(before.tropic, step, after.tropic)
            &&& step matches Err(e) ==> after.active == before.active && result == Err::<
                (),
                ApplianceError,
            >(
                if e is CounterExhausted {
                    ApplianceError::CounterExhausted
                } else {
                    ApplianceError::Tropic(e)
                },
            )
            &&& step is Ok ==> {
                &&& result is Ok
                &&& after.active.root@ == before.active.root@
                &&& after.active.status == before.active.status
                &&& after.active.u == c.next_anchor_counter
                &&& after.active.record@ matches RecordView::Committed(d) && d.committed
                    && d.release == c.release && d.prev_root == c.prev_root && d.next_root
                    == c.next_root && d.anchor_counter == c.anchor_counter
                    && d.next_anchor_counter == c.next_anchor_counter
            }
        }),
{
    if before.holds_candidate() {
        choose|step: Result<(), TropicError>|
            {
                &&& #[trigger] update_done(before.tropic, step, after.tropic)
                &&& match step {
                    Err(e) => {
                        &&& result == Err::<(), ApplianceError>(step_error_spec(e))
                        &&& after.active == before.active
                    },
                    Ok(_) => {
                        &&& result is Ok
                        &&& after.active@ == marked(before.active@)
                    },
                }
            }
    } else {
        Err(TropicError::Comm)
    }
}

/// A release can be exported exactly if a record is committed and marked so, and it is that
/// record's own.
pub proof fn lemma_export_in_full<T: Tropic, S: WitnessSig>(app: ApplianceView<T, S>)
    ensures
        app.exported() is Some <==> (app.active.record@ matches RecordView::Committed(c)
            && c.committed),
        app.exported() matches Some(rel) ==> rel
            == (app.active.record@->Committed_0).release,
{
}

/// Finalizing is refused without a release to export, and unless the counter adds up with the
/// active index to the enrolled value; nothing changes then. Otherwise the root becomes the
/// record's successor, which is also the answer, and the appliance is ready at the same index.
pub proof fn lemma_finalize_in_full<T: Tropic, S: WitnessSig>(
    before: ApplianceView<T, S>,
    after: ApplianceView<T, S>,
    result: Result<[u8; 32], ApplianceError>,
) -> (reply: Result<u32, TropicError>)
    requires
        before.finalize_spec(&after, result),
    ensures
        ({
            let held = before.active.record@ matches RecordView::Committed(c) && c.committed;
            &&& result == Err::<[u8; 32], ApplianceError>(ApplianceError::NotCommitted) <==> !held
            &&& !held ==> after == before
            &&& held ==> get_done(before.tropic, reply, after.tropic)
            &&& result is Ok <==> held && (reply matches Ok(h) && h + before.active.u
                == before.h0)
            &&& result == Err::<[u8; 32], ApplianceError>(ApplianceError::CounterMismatch)
                <==> held && (reply matches Ok(h) && h + before.active.u != before.h0)
            &&& held ==> (reply matches Err(e) ==> result == Err::<[u8; 32], ApplianceError>(
                ApplianceError::Tropic(e),
            ))
            &&& result is Err ==> after.active == before.active
            &&& result matches Ok(root) ==> {
                &&& root@ == (before.active.record@->Committed_0).next_root
                &&& after.active.root@ == root@
                &&& after.active.u == before.active.u
                &&& after.active.status is Ready
                &&& after.active.record@ is Empty
            }
        }),
{
    match before.active.record {
        Record::Committed(c) if c.committed => choose|reply: Result<u32, TropicError>|
            {
                &&& #[trigger] get_done(before.tropic, reply, after.tropic)
                &&& match in_step_spec(before.h0, before.active.u, reply) {
                    Err(e) => {
                        &&& result == Err::<[u8; 32], ApplianceError>(e)
                        &&& after.active == before.active
                    },
                    Ok(_) => {
                        &&& result == Ok::<[u8; 32], ApplianceError>(c.next_root)
                        &&& after.active.root == c.next_root
                    },
                }
            },
        _ => Err(TropicError::Comm),
    }
}

/// Cancelling succeeds exactly if a record is prepared: the record goes, root and index stay, and
/// the chip is not asked.
pub proof fn lemma_cancel_in_full<T: Tropic, S: WitnessSig>(
    before: ApplianceView<T, S>,
    after: ApplianceView<T, S>,
    result: Result<(), ApplianceError>,
)
    requires
        before.cancel_spec(&after, result),
    ensures
        result is Ok <==> before.active.record@ is Prepared,
        result is Err ==> result == Err::<(), ApplianceError>(ApplianceError::WrongState)
            && after.active == before.active,
        result is Ok ==> after.active.status is Ready && after.active.record@ is Empty,
        after.active.root@ == before.active.root@,
        after.active.u == before.active.u,
        after.tropic == before.tropic,
{
}

/// What recovery plans for an active state and a live index, in numbers.
/// - Ready: an index ahead of the live one fails closed, one behind it goes online, and the same
///   index is probed.
/// - Prepared: only a record of the active root at the live index can complete, if it has its key.
/// - Committed: a record whose next index is live is marked; an unmarked one of the active root
///   whose next index is one above the live one is stepped first.
pub proof fn lemma_plan_in_full(active: ActiveView, live_u: u64)
    ensures
        ({
            let plan = plan_spec(active, live_u);
            let downgrade = RecoveryPlan::Answer(RecoverOutcome::DowngradeOnline);
            match active.status {
                Status::Ready => {
                    &&& plan is Probe <==> active.u == live_u
                    &&& plan == RecoveryPlan::Answer(RecoverOutcome::FailClosed) <==> active.u
                        > live_u
                    &&& plan == downgrade <==> active.u < live_u
                },
                Status::Prepared => {
                    let held = active.record matches RecordView::Prepared(p) && p.txn.prev_root
                        == active.root && active.u == live_u;
                    let keyed = active.record->Prepared_0.sk_hw.len() > 0;
                    &&& plan == RecoveryPlan::Answer(RecoverOutcome::AcceptPreparedCanComplete)
                        <==> held && keyed
                    &&& plan == RecoveryPlan::Answer(RecoverOutcome::OnlineCancelOrResolve)
                        <==> held && !keyed
                    &&& plan == downgrade <==> !held
                },
                Status::Committed => {
                    let moved = active.record matches RecordView::Committed(c)
                        && c.next_anchor_counter == live_u;
                    let due = active.record matches RecordView::Committed(c) && !c.committed
                        && c.next_anchor_counter == live_u + 1 && c.prev_root == active.root;
                    &&& plan is Mark <==> moved
                    &&& plan is StepThenMark <==> due
                    &&& plan == downgrade <==> !moved && !due
                },
            }
        }),
{
}

/// What recovery answers for a counter that was read as `reply`, in every status. It goes online if
/// the chip cannot be read or its counter is above the enrolled value.
/// - Ready: it fails closed if the active index is ahead of the counter, and goes online if the
///   counter is ahead. In step, a second read decides.
/// - Prepared: the record can complete exactly if the counter adds up with the active index to the
///   enrolled value, the parent is the active root, and the signing key is there. Without the key
///   the record is to be cancelled online.
/// - Committed: the release is to be emitted again if the counter has moved for it. If it has not,
///   the record is not marked, the step is the very next one and the parent is the active root, the
///   step is made first.
pub proof fn lemma_recovery_in_full<T: Tropic, S: WitnessSig>(
    before: ApplianceView<T, S>,
    reply: Result<u32, TropicError>,
    read: T,
    after: ApplianceView<T, S>,
    outcome: RecoverOutcome,
)
    requires
        before.recover_answered(reply, read, &after, outcome),
    ensures
        ({
            let u = before.active.u;
            let record = before.active.record@;
            &&& (reply is Err || reply->Ok_0 > before.h0) ==> outcome
                == RecoverOutcome::DowngradeOnline && after.active == before.active
                && after.tropic == read
            &&& reply matches Ok(h) ==> h <= before.h0 ==> match before.active.status {
                Status::Ready => {
                    &&& after.active == before.active
                    &&& h + u < before.h0 ==> outcome == RecoverOutcome::DowngradeOnline
                        && after.tropic == read
                    &&& h + u > before.h0 ==> outcome == RecoverOutcome::FailClosed && after.tropic
                        == read
                    &&& h + u == before.h0 ==> exists|again: Result<u32, TropicError>|
                        {
                            &&& #[trigger] get_done(read, again, after.tropic)
                            &&& again is Err ==> outcome == RecoverOutcome::DowngradeOnline
                            &&& again matches Ok(live) ==> if live == 0 {
                                outcome == RecoverOutcome::ExhaustedOnlineOnly
                            } else {
                                outcome matches RecoverOutcome::Accept(root) && root
                                    == before.active.root
                            }
                        }
                },
                Status::Prepared => {
                    &&& after.active == before.active
                    &&& after.tropic == read
                    &&& outcome == RecoverOutcome::AcceptPreparedCanComplete <==> (
                    record matches RecordView::Prepared(p) && h + u == before.h0
                        && p.txn.prev_root == before.active.root@ && p.sk_hw.len() > 0)
                    &&& outcome == RecoverOutcome::OnlineCancelOrResolve <==> (
                    record matches RecordView::Prepared(p) && h + u == before.h0
                        && p.txn.prev_root == before.active.root@ && p.sk_hw.len() == 0)
                    &&& outcome == RecoverOutcome::DowngradeOnline <==> !(
                    record matches RecordView::Prepared(p) && h + u == before.h0
                        && p.txn.prev_root == before.active.root@)
                },
                Status::Committed => if record matches RecordView::Committed(c) && h
                    + c.next_anchor_counter == before.h0 {
                    &&& outcome matches RecoverOutcome::ReemitCommitted(root) && root@
                        == record->Committed_0.next_root
                    &&& after.tropic == read
                    &&& after.active.u == record->Committed_0.next_anchor_counter
                    &&& after.active.record@ matches RecordView::Committed(d) && d.committed
                } else if record matches RecordView::Committed(c) && !c.committed && h
                    + c.next_anchor_counter == before.h0 + 1 && c.prev_root
                    == before.active.root@ {
                    exists|step: Result<(), TropicError>|
                        {
                            &&& #[trigger] update_done(read, step, after.tropic)
                            &&& step is Err ==> outcome == RecoverOutcome::DowngradeOnline
                                && after.active == before.active
                            &&& step is Ok ==> {
                                &&& outcome matches RecoverOutcome::ReemitCommitted(root) && root@
                                    == record->Committed_0.next_root
                                &&& after.active.u == record->Committed_0.next_anchor_counter
                                &&& after.active.record@ matches RecordView::Committed(d)
                                    && d.committed
                            }
                        }
                } else {
                    &&& outcome == RecoverOutcome::DowngradeOnline
                    &&& after.active == before.active
                    &&& after.tropic == read
                },
            }
        }),
{
}

/// Recovery asks the chip unless an invalidation is known, in which case it goes online and changes
/// nothing. Whatever it finds, root, status and setup stay, and of a committed record all but its
/// mark.
pub proof fn lemma_recovery_asks_the_chip<T: Tropic, S: WitnessSig>(
    before: ApplianceView<T, S>,
    after: ApplianceView<T, S>,
    outcome: RecoverOutcome,
)
    requires
        before.recover_spec(&after, outcome),
    ensures
        before.firmware_boundary_invalid || before.rmemory_map_invalid ==> outcome
            == RecoverOutcome::DowngradeOnline && after == before,
        !before.firmware_boundary_invalid && !before.rmemory_map_invalid ==> exists|
            reply: Result<u32, TropicError>,
            read: T,
        |
            {
                &&& #[trigger] get_done(before.tropic, reply, read)
                &&& before.recover_answered(reply, read, &after, outcome)
            },
        after.active.root@ == before.active.root@,
        after.active.status == before.active.status,
        after.active.record@ == before.active.record@ || (
        before.active.record@ matches RecordView::Committed(c) && (
        after.active.record@ matches RecordView::Committed(d) && d.committed && d.release
            == c.release && d.prev_root == c.prev_root && d.next_root == c.next_root
            && d.anchor_counter == c.anchor_counter && d.next_anchor_counter
            == c.next_anchor_counter)),
        after.h0 == before.h0,
        after.anchor_id == before.anchor_id,
        after.slot == before.slot,
        after.firmware_boundary_invalid == before.firmware_boundary_invalid,
        after.rmemory_map_invalid == before.rmemory_map_invalid,
{
}

/// If recovery says that a prepared record can complete, a commit that reads the same counter value
/// completes it, unless that value is zero or the chip fails the counter step.
pub proof fn lemma_completable_record_commits<T: Tropic, S: WitnessSig>(
    before: ApplianceView<T, S>,
    h: u32,
    read: T,
    recovered: ApplianceView<T, S>,
    again: T,
    after: ApplianceView<T, S>,
    result: Result<(), ApplianceError>,
)
    requires
        before.recover_answered(
            Ok(h),
            read,
            &recovered,
            RecoverOutcome::AcceptPreparedCanComplete,
        ),
        before.active.record@ matches RecordView::Prepared(p) ==> p.txn.anchor_counter
            == before.active.u,
        recovered.commit_answered(
            recovered.active.record@->Prepared_0,
            Ok(h),
            again,
            &after,
            result,
        ),
        h > 0,
    ensures
        recovered.commit_refusal() is None,
        result is Ok || exists|e: TropicError| #[trigger]
            update_done(again, Err(e), after.tropic),
        after.active.record@ is Committed,
{
    assert(before.active.record@ is Prepared);
    let p = recovered.active.record@->Prepared_0;
    let step = choose|step: Result<(), TropicError>|
        {
            &&& #[trigger] update_done(again, step, after.tropic)
            &&& match step {
                Err(e) => result == Err::<(), ApplianceError>(step_error_spec(e)),
                Ok(_) => result is Ok,
            }
        };
    if let Err(e) = step {
        assert(update_done(again, Err(e), after.tropic));
    }
}

/// A prepared record whose index is out of step with the counter is never said to complete, and a
/// commit that reads that counter value is refused and changes nothing.
pub proof fn lemma_out_of_step_record_goes_online<T: Tropic, S: WitnessSig>(
    before: ApplianceView<T, S>,
    h: u32,
    read: T,
    recovered: ApplianceView<T, S>,
    outcome: RecoverOutcome,
)
    requires
        before.active.status is Prepared,
        h + before.active.u != before.h0,
        before.recover_answered(Ok(h), read, &recovered, outcome),
    ensures
        outcome == RecoverOutcome::DowngradeOnline,
        recovered.active == before.active,
        forall|again: T, after: ApplianceView<T, S>, result: Result<(), ApplianceError>|
            (recovered.active.record@ matches RecordView::Prepared(p) && p.txn.anchor_counter
                == before.active.u) && #[trigger] recovered.commit_answered(
                recovered.active.record@->Prepared_0,
                Ok(h),
                again,
                &after,
                result,
            ) ==> result is Err && after.active == recovered.active && after.tropic == again,
{
}

} // verus!
