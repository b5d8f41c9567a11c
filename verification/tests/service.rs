//! Every error that the appliance, recovery, the receiver and the service can give.
use anchor_core::accept::{
    accept_offline, AcceptError, CounterVerifier, DsmVerifier, VerifierContext,
};
use anchor_core::appliance::{
    in_step, live_index_of, movable, plan_recovery, step_error, Active, Appliance, ApplianceError,
    Record, RecoverOutcome, RecoveryPlan, Status,
};
use anchor_core::hash::kdf;
use anchor_core::proto::{decode_response, encode_request, pb, ProtoError};
use anchor_core::root_advance::{CounterEvidence, OfflineRelease, OwnedTransition, Transition};
use anchor_core::service::{
    appliance_code, dispatch, err, handle, proto_code, status_code, MAX_FRAME_LEN,
};
use anchor_core::sig::WotsBlake3;
use anchor_core::tropic::{Tropic, TropicError};

const H0: u32 = 100;
const ROOT0: [u8; 32] = [0x11; 32];
const ROOT1: [u8; 32] = [0x22; 32];
const ANCHOR: [u8; 32] = [0xAA; 32];
const POLICY: [u8; 32] = [0x33; 32];
const RCHAL: [u8; 32] = [0x55; 32];

struct Chip {
    h: u32,
    reads: bool,
    witnesses: bool,
    step_fails: Option<TropicError>,
}

impl Chip {
    fn at(h: u32) -> Chip {
        Chip { h, reads: true, witnesses: true, step_fails: None }
    }
}

impl Tropic for Chip {
    fn mac_and_destroy(&mut self, q: u16, x: &[u8; 32]) -> Result<[u8; 32], TropicError> {
        if self.witnesses {
            Ok(kdf(&[0xC0; 32], "test/macandd", &[&q.to_le_bytes(), x]))
        } else {
            Err(TropicError::NotArmed)
        }
    }

    fn counter_get(&mut self) -> Result<u32, TropicError> {
        if self.reads {
            Ok(self.h)
        } else {
            Err(TropicError::Comm)
        }
    }

    fn counter_update(&mut self) -> Result<(), TropicError> {
        if self.h == 0 {
            return Err(TropicError::CounterExhausted);
        }
        if let Some(e) = self.step_fails {
            return Err(e);
        }
        self.h -= 1;
        Ok(())
    }
}

struct Yes;

impl DsmVerifier for Yes {
    fn root_commits_counter(&self, _r: &[u8; 32], _i: u64) -> bool {
        true
    }

    fn verify_transition(&self, _t: &Transition) -> bool {
        true
    }

    fn delivers_to_receiver(&self, _t: &Transition) -> bool {
        true
    }
}

struct Reads(u64);

impl CounterVerifier for Reads {
    fn read_authentic_counter(&self, _a: &[u8; 32], _ev: &CounterEvidence) -> Option<u64> {
        Some(self.0)
    }
}

fn app(chip: Chip) -> Appliance<Chip, WotsBlake3> {
    Appliance::new(chip, H0, ROOT0, ANCHOR, 1)
}

fn transition(prev_root: [u8; 32], next_root: [u8; 32], u: u64) -> OwnedTransition {
    OwnedTransition {
        relationship_id: [1; 32],
        object_id: [2; 32],
        sender_device_id: [3; 32],
        recipient_device_id: [4; 32],
        prev_root,
        next_root,
        anchor_counter: u,
        next_anchor_counter: u.wrapping_add(1),
        action_type: 0,
        action_fields: vec![9, 9, 9],
        payload_hash: [6; 32],
        old_leaf_proof: vec![0xAB; 40],
        new_leaf_proof: vec![0xCD; 40],
        authority_policy_hash: POLICY,
    }
}

fn committed() -> Appliance<Chip, WotsBlake3> {
    let mut a = app(Chip::at(H0));
    a.prepare(&transition(ROOT0, ROOT1, 0).as_transition(), &RCHAL).unwrap();
    a.commit().unwrap();
    a
}

fn verdict(rel: &OfflineRelease, enrolled: u64, read: u64) -> Result<(), AcceptError> {
    let ctx = VerifierContext {
        accepted_prev_root: &rel.transition.prev_root,
        pinned_anchor_id: &ANCHOR,
        expected_receiver_challenge: &RCHAL,
        expected_policy_hash: &POLICY,
        enrolled_counter: enrolled,
        exposure_cap_index: 1_000,
        anchor_uncompromised: true,
    };
    accept_offline::<WotsBlake3, Yes, Reads>(rel, &ctx, &Yes, &Reads(read))
}

fn ask(a: &mut Appliance<Chip, WotsBlake3>, op: i32) -> pb::ApplianceResponse {
    let req = pb::ApplianceRequest { op, ..Default::default() };
    decode_response(&handle(a, &encode_request(&req))).unwrap()
}

fn prepare_request(t: &OwnedTransition) -> pb::ApplianceRequest {
    pb::ApplianceRequest {
        op: pb::Op::Prepare as i32,
        transition: Some(t.to_pb()),
        receiver_challenge: RCHAL.to_vec(),
    }
}

#[test]
fn counter_arithmetic() {
    assert_eq!(live_index_of(100, Ok(97)), Ok(3));
    assert_eq!(live_index_of(100, Ok(101)), Err(ApplianceError::CounterMismatch));
    assert_eq!(
        live_index_of(100, Err(TropicError::Comm)),
        Err(ApplianceError::Tropic(TropicError::Comm))
    );
    assert_eq!(in_step(100, 3, Ok(97)), Ok(()));
    assert_eq!(in_step(100, 2, Ok(97)), Err(ApplianceError::CounterMismatch));
    assert_eq!(movable(100, 3, Ok(97)), Ok(97));
    assert_eq!(movable(100, 100, Ok(0)), Err(ApplianceError::CounterExhausted));
    assert_eq!(movable(100, 2, Ok(97)), Err(ApplianceError::CounterMismatch));
    assert_eq!(movable(100, 0, Ok(101)), Err(ApplianceError::CounterMismatch));
    assert_eq!(
        movable(100, 0, Err(TropicError::Comm)),
        Err(ApplianceError::Tropic(TropicError::Comm))
    );
}

#[test]
fn prepare_is_refused_out_of_step() {
    let t = transition(ROOT0, ROOT1, 0);
    let mut a = app(Chip::at(H0 - 1));
    assert_eq!(a.prepare(&t.as_transition(), &RCHAL), Err(ApplianceError::CounterMismatch));
    let mut a = app(Chip::at(H0 + 1));
    assert_eq!(a.prepare(&t.as_transition(), &RCHAL), Err(ApplianceError::CounterMismatch));
    let mut a = app(Chip { reads: false, ..Chip::at(H0) });
    assert_eq!(
        a.prepare(&t.as_transition(), &RCHAL),
        Err(ApplianceError::Tropic(TropicError::Comm))
    );
    let mut a = app(Chip { witnesses: false, ..Chip::at(H0) });
    assert_eq!(
        a.prepare(&t.as_transition(), &RCHAL),
        Err(ApplianceError::Tropic(TropicError::NotArmed))
    );
    assert_eq!(a.active.status, Status::Ready);
    // no index after the last one
    let mut a = app(Chip::at(H0));
    a.active.u = u64::MAX;
    let t = transition(ROOT0, ROOT1, u64::MAX);
    assert_eq!(a.prepare(&t.as_transition(), &RCHAL), Err(ApplianceError::IndexMismatch));
}

#[test]
fn commit_needs_the_key_and_the_parent() {
    let mut a = app(Chip::at(H0));
    a.prepare(&transition(ROOT0, ROOT1, 0).as_transition(), &RCHAL).unwrap();
    a.active.root = ROOT1;
    assert_eq!(a.commit(), Err(ApplianceError::PrevRootMismatch));
    a.active.root = ROOT0;
    if let Record::Prepared(p) = &mut a.active.record {
        p.sk_hw.clear();
    }
    assert_eq!(a.commit(), Err(ApplianceError::WitnessKeyLost));
    assert_eq!(a.recover(), RecoverOutcome::OnlineCancelOrResolve);
    a.cancel().unwrap();
    assert_eq!(a.recover(), RecoverOutcome::Accept(ROOT0));
}

#[test]
fn an_interrupted_commit_is_completed_by_recovery() {
    let mut a = app(Chip { step_fails: Some(TropicError::CounterExhausted), ..Chip::at(H0) });
    a.prepare(&transition(ROOT0, ROOT1, 0).as_transition(), &RCHAL).unwrap();
    assert_eq!(a.commit(), Err(ApplianceError::CounterExhausted));
    // the candidate is kept, nothing is exported, and the key is gone
    assert_eq!(a.active.status, Status::Committed);
    assert_eq!(a.emit().err(), Some(ApplianceError::NotCommitted));
    assert_eq!(a.finalize(), Err(ApplianceError::NotCommitted));
    let kept = match &a.active.record {
        Record::Committed(c) => c.release.to_pb(),
        _ => panic!("no candidate"),
    };
    // still no step: nothing changes
    assert_eq!(a.recover(), RecoverOutcome::DowngradeOnline);
    assert!(a.emit().is_err());
    // with a chip that works, the same release is completed
    let mut b = app(Chip::at(H0));
    b.active = a.active;
    assert_eq!(b.recover(), RecoverOutcome::ReemitCommitted(ROOT1));
    assert_eq!(b.emit().unwrap().to_pb(), kept);
    assert_eq!(verdict(b.emit().unwrap(), H0 as u64, H0 as u64 - 1), Ok(()));
    assert_eq!(b.recover(), RecoverOutcome::ReemitCommitted(ROOT1));
    assert_eq!(b.finalize(), Ok(ROOT1));
    assert_eq!(b.recover(), RecoverOutcome::Accept(ROOT1));
}

#[test]
fn a_commit_is_its_phases_in_order() {
    // nothing to sign, and no candidate to step for
    let mut a = app(Chip::at(H0));
    assert_eq!(a.sign_candidate(), Err(ApplianceError::WrongState));
    assert_eq!(a.step_counter(), Err(ApplianceError::WrongState));
    assert_eq!(a.live_index(), Ok(0));

    // the candidate is there before the counter moves
    a.prepare(&transition(ROOT0, ROOT1, 0).as_transition(), &RCHAL).unwrap();
    assert_eq!(a.step_counter(), Err(ApplianceError::WrongState));
    assert_eq!(a.sign_candidate(), Ok(()));
    assert_eq!((a.active.status, a.active.u), (Status::Committed, 0));
    assert_eq!(a.live_index(), Ok(0));
    assert_eq!(a.emit().err(), Some(ApplianceError::NotCommitted));
    assert_eq!(a.sign_candidate(), Err(ApplianceError::WrongState));

    // then the counter moves, once, and the release is the one that a commit leaves
    assert_eq!(a.step_counter(), Ok(()));
    assert_eq!((a.active.status, a.active.u), (Status::Committed, 1));
    assert_eq!(a.live_index(), Ok(1));
    assert_eq!(a.emit().unwrap().to_pb(), committed().emit().unwrap().to_pb());
    assert_eq!(a.step_counter(), Err(ApplianceError::WrongState));
    assert_eq!(a.live_index(), Ok(1));
}

#[test]
fn a_candidate_is_completed_whether_or_not_the_counter_has_moved() {
    for moved in [false, true] {
        let mut a = app(Chip::at(H0));
        a.prepare(&transition(ROOT0, ROOT1, 0).as_transition(), &RCHAL).unwrap();
        a.sign_candidate().unwrap();
        let mut b = app(Chip::at(if moved { H0 - 1 } else { H0 }));
        b.active = a.active;
        assert_eq!(b.recover(), RecoverOutcome::ReemitCommitted(ROOT1));
        assert_eq!(b.live_index(), Ok(1));
        assert_eq!(b.emit().unwrap().to_pb(), committed().emit().unwrap().to_pb());
    }
}

#[test]
fn a_failed_step_is_told_from_an_exhausted_counter() {
    assert_eq!(step_error(TropicError::CounterExhausted), ApplianceError::CounterExhausted);
    for e in [TropicError::Comm, TropicError::NotArmed] {
        assert_eq!(step_error(e), ApplianceError::Tropic(e));
        let mut a = app(Chip { step_fails: Some(e), ..Chip::at(H0) });
        a.prepare(&transition(ROOT0, ROOT1, 0).as_transition(), &RCHAL).unwrap();
        assert_eq!(a.commit(), Err(ApplianceError::Tropic(e)));
        // the candidate is kept for recovery, and nothing is exported
        assert_eq!(a.state().status, Status::Committed);
        assert_eq!(a.emit().err(), Some(ApplianceError::NotCommitted));
        assert_eq!(a.live_index(), Ok(0));
    }
    let mut a = app(Chip { step_fails: Some(TropicError::Comm), ..Chip::at(H0) });
    let req = prepare_request(&transition(ROOT0, ROOT1, 0));
    assert!(dispatch(&mut a, &req).ok);
    assert_eq!(ask(&mut a, pb::Op::Commit as i32).error, err::TROPIC);
    assert_eq!(ask(&mut a, pb::Op::Status as i32).status, 2);

    // an exhausted counter is refused before anything is signed
    let mut a = app(Chip::at(0));
    a.active.u = H0 as u64;
    let req = prepare_request(&transition(ROOT0, ROOT1, H0 as u64));
    assert!(dispatch(&mut a, &req).ok);
    assert_eq!(ask(&mut a, pb::Op::Commit as i32).error, err::COUNTER_EXHAUSTED);
    assert_eq!(ask(&mut a, pb::Op::Status as i32).status, 1);
}

#[test]
fn a_short_key_matters_to_a_commit_alone() {
    let mut a = app(Chip::at(H0));
    a.prepare(&transition(ROOT0, ROOT1, 0).as_transition(), &RCHAL).unwrap();
    if let Record::Prepared(p) = &mut a.active.record {
        p.sk_hw.truncate(5);
    }
    assert_eq!(ask(&mut a, pb::Op::Status as i32).status, 1);
    assert_eq!(a.recover(), RecoverOutcome::AcceptPreparedCanComplete);
    a.active.root = ROOT1;
    assert_eq!(a.commit(), Err(ApplianceError::PrevRootMismatch));
    assert!(ask(&mut a, pb::Op::Cancel as i32).ok);
}

#[test]
fn recovery_on_an_exhausted_or_unreadable_chip() {
    let mut a = app(Chip::at(0));
    a.active.u = H0 as u64;
    assert_eq!(a.recover(), RecoverOutcome::ExhaustedOnlineOnly);
    let mut a = app(Chip { reads: false, ..Chip::at(H0) });
    assert_eq!(a.recover(), RecoverOutcome::DowngradeOnline);
    let mut a = app(Chip::at(H0 + 1));
    assert_eq!(a.recover(), RecoverOutcome::DowngradeOnline);
    let mut a = app(Chip::at(H0));
    a.rmemory_map_invalid = true;
    assert_eq!(a.recover(), RecoverOutcome::DowngradeOnline);
}

#[test]
fn recovery_plans() {
    let ready = |u: u64| Active { root: ROOT0, u, status: Status::Ready, record: Record::Empty };
    let down = RecoveryPlan::Answer(RecoverOutcome::DowngradeOnline);
    assert_eq!(plan_recovery(&ready(3), 3), RecoveryPlan::Probe);
    assert_eq!(plan_recovery(&ready(3), 4), down);
    assert_eq!(
        plan_recovery(&ready(3), 2),
        RecoveryPlan::Answer(RecoverOutcome::FailClosed)
    );
    let broken = Active { status: Status::Committed, ..ready(0) };
    assert_eq!(plan_recovery(&broken, 0), down);
    let broken = Active { status: Status::Prepared, ..ready(0) };
    assert_eq!(plan_recovery(&broken, 0), down);
    let done = committed().active;
    assert_eq!(plan_recovery(&done, 1), RecoveryPlan::Mark);
    assert_eq!(plan_recovery(&done, 0), down);
    assert_eq!(plan_recovery(&done, 2), down);
}

#[test]
fn finalize_is_refused_out_of_step() {
    let mut a = committed();
    a.active.u = 5;
    assert_eq!(a.finalize(), Err(ApplianceError::CounterMismatch));
    a.active.u = 1;
    assert_eq!(a.finalize(), Ok(ROOT1));
}

#[test]
fn the_next_index_must_follow() {
    let a = committed();
    let mut rel = a.emit().unwrap().clone();
    rel.transition.next_anchor_counter = 7;
    rel.cert.next_anchor_counter = 7;
    assert_eq!(verdict(&rel, H0 as u64, 93), Err(AcceptError::BadNextIndex));
}

#[test]
fn evidence_beyond_the_enrolled_counter_is_invalid() {
    let a = committed();
    let rel = a.emit().unwrap().clone();
    assert_eq!(verdict(&rel, 0, 0), Err(AcceptError::CounterEvidenceInvalid));
    assert_eq!(verdict(&rel, 1, 0), Ok(()));
    let mut other = rel.clone();
    other.counter.anchor_id[0] ^= 1;
    assert_eq!(verdict(&other, H0 as u64, 99), Err(AcceptError::CounterEvidenceInvalid));
}

#[test]
fn an_export_is_accepted_at_its_counter_value_only() {
    let a = committed();
    let rel = a.emit().unwrap().clone();
    for read in 0..=(H0 as u64) {
        assert_eq!(verdict(&rel, H0 as u64, read).is_ok(), read == 99);
    }
}

#[test]
fn the_claims_of_the_host_decide_nothing() {
    let a = committed();
    let mut rel = a.emit().unwrap().clone();
    rel.counter.enrolled_counter = 1;
    rel.counter.live_counter_claim = 2;
    rel.counter.derived_index_claim = 3;
    assert_eq!(verdict(&rel, H0 as u64, 99), Ok(()));
}

#[test]
fn an_index_is_spent_once() {
    let mut a = committed();
    let first = a.emit().unwrap().clone();
    a.finalize().unwrap();
    // the first index is gone
    let again = transition(ROOT1, [0x23; 32], 0);
    assert_eq!(a.prepare(&again.as_transition(), &RCHAL), Err(ApplianceError::IndexMismatch));
    // an appliance restored to the old state is out of step with the chip
    let mut restored = app(Chip::at(H0 - 1));
    let t = transition(ROOT0, [0x24; 32], 0);
    assert_eq!(
        restored.prepare(&t.as_transition(), &RCHAL),
        Err(ApplianceError::CounterMismatch)
    );
    // the next advance makes the first release stale
    a.prepare(&transition(ROOT1, [0x77; 32], 1).as_transition(), &RCHAL).unwrap();
    a.commit().unwrap();
    assert_eq!(a.live_index(), Ok(2));
    assert_eq!(verdict(&first, H0 as u64, 98), Err(AcceptError::CounterEvidenceInvalid));
    assert_eq!(verdict(a.emit().unwrap(), H0 as u64, 98), Ok(()));
}

#[test]
fn cancelling_undoes_a_preparation() {
    let mut a = app(Chip::at(H0));
    let t = transition(ROOT0, ROOT1, 0);
    a.prepare(&t.as_transition(), &RCHAL).unwrap();
    a.cancel().unwrap();
    assert_eq!((a.active.root, a.active.u, a.active.status), (ROOT0, 0, Status::Ready));
    assert_eq!(a.live_index(), Ok(0));
    a.prepare(&t.as_transition(), &RCHAL).unwrap();
    a.commit().unwrap();
    assert_eq!(a.cancel(), Err(ApplianceError::WrongState));
    assert_eq!(a.active.status, Status::Committed);
}

#[test]
fn codes() {
    assert_eq!(appliance_code(ApplianceError::WrongState), 1);
    assert_eq!(appliance_code(ApplianceError::PrevRootMismatch), 2);
    assert_eq!(appliance_code(ApplianceError::IndexMismatch), 3);
    assert_eq!(appliance_code(ApplianceError::CounterMismatch), 4);
    assert_eq!(appliance_code(ApplianceError::WitnessKeyLost), 5);
    assert_eq!(appliance_code(ApplianceError::CounterExhausted), 6);
    assert_eq!(appliance_code(ApplianceError::NotCommitted), 7);
    assert_eq!(appliance_code(ApplianceError::Tropic(TropicError::NotArmed)), 8);
    assert_eq!(proto_code(ProtoError::Decode), 100);
    assert_eq!(proto_code(ProtoError::BadLength), 100);
    assert_eq!(proto_code(ProtoError::OutOfRange), 100);
    assert_eq!(proto_code(ProtoError::MissingField), 101);
    assert_eq!(proto_code(ProtoError::BadOp), 102);
    assert_eq!(status_code(Status::Ready), 0);
    assert_eq!(status_code(Status::Prepared), 1);
    assert_eq!(status_code(Status::Committed), 2);
    assert_eq!((err::NONE, err::FRAME_TOO_LARGE), (0, 103));
}

#[test]
fn requests_are_answered_with_their_error() {
    let mut a = app(Chip::at(H0));
    for op in [0, 7, -1, i32::MAX] {
        let r = ask(&mut a, op);
        assert_eq!((r.op, r.ok, r.error), (op, false, err::BAD_OP));
    }
    let r = ask(&mut a, pb::Op::Prepare as i32);
    assert_eq!((r.op, r.ok, r.error), (1, false, err::MISSING_FIELD));
    assert_eq!(ask(&mut a, pb::Op::Commit as i32).error, err::WRONG_STATE);
    assert_eq!(ask(&mut a, pb::Op::Emit as i32).error, err::NOT_COMMITTED);
    assert_eq!(ask(&mut a, pb::Op::Finalize as i32).error, err::NOT_COMMITTED);
    assert_eq!(ask(&mut a, pb::Op::Cancel as i32).error, err::WRONG_STATE);

    let mut req = prepare_request(&transition(ROOT0, ROOT1, 0));
    req.receiver_challenge.pop();
    assert_eq!(dispatch(&mut a, &req).error, err::BAD_PROTO);
    let mut req = prepare_request(&transition(ROOT0, ROOT1, 0));
    if let Some(t) = &mut req.transition {
        t.object_id.push(0);
    }
    assert_eq!(dispatch(&mut a, &req).error, err::BAD_PROTO);
    let req = prepare_request(&transition(ROOT1, ROOT0, 0));
    assert_eq!(dispatch(&mut a, &req).error, err::PARENT_MISMATCH);
    let req = prepare_request(&transition(ROOT0, ROOT1, 4));
    assert_eq!(dispatch(&mut a, &req).error, err::INDEX_MISMATCH);
    assert_eq!(a.active.status, Status::Ready);
}

#[test]
fn status_and_cancel_over_the_wire() {
    let mut a = app(Chip::at(H0));
    let req = prepare_request(&transition(ROOT0, ROOT1, 0));
    assert!(dispatch(&mut a, &req).ok);
    let r = ask(&mut a, pb::Op::Status as i32);
    assert_eq!((r.ok, r.active_index, r.status), (true, 0, 1));
    assert_eq!(r.active_root, ROOT0.to_vec());
    assert!(ask(&mut a, pb::Op::Cancel as i32).ok);
    assert_eq!(ask(&mut a, pb::Op::Status as i32).status, 0);
}

#[test]
fn a_frame_of_the_largest_size_is_decoded() {
    let mut a = app(Chip::at(H0));
    // one unknown byte string that fills the frame
    let mut frame = vec![0x7A, 0xFC, 0xFF, 0x03];
    frame.resize(MAX_FRAME_LEN, 0);
    let r = decode_response(&handle(&mut a, &frame)).unwrap();
    assert_eq!(r.error, err::BAD_OP);
    frame.push(0);
    let r = decode_response(&handle(&mut a, &frame)).unwrap();
    assert_eq!(r.error, err::FRAME_TOO_LARGE);
    let r = decode_response(&handle(&mut a, &[0x0A])).unwrap();
    assert_eq!(r.error, err::BAD_PROTO);
}

#[test]
fn what_is_emitted_over_the_wire_is_accepted() {
    let mut a = committed();
    let r = ask(&mut a, pb::Op::Emit as i32);
    let rel = r.release.unwrap().to_release().unwrap();
    assert_eq!(rel.to_pb(), a.emit().unwrap().to_pb());
    assert_eq!(verdict(&rel, H0 as u64, 99), Ok(()));
}
