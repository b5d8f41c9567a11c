//! The self-test that a device runs on itself: one root advance over the wire protocol, through
//! the secure core, and the receiver's verdict on what was emitted.
use crate::accept::{
    accept_offline, accept_spec, CounterVerifier, DsmVerifier, VerifierContext,
    VerifierContextView,
};
use crate::appliance::{ApplianceView, Record};
use crate::lifecycle::{
    lemma_advance, lemma_commit_keeps_coherence, lemma_export_is_accepted,
    lemma_prepare_keeps_coherence,
};
use crate::proto::message::{view_of, Message};
use crate::proto::{
    decode_response, encode_request, lemma_release_conversion, lemma_request_round_trip,
    lemma_response_round_trip, pb, release_of_message,
};
use crate::root_advance::{
    CounterEvidence, CounterEvidenceView, OfflineRelease, OfflineReleaseView, Transition,
    TransitionView,
};
use crate::secure_core::SecureCore;
use crate::service::{asks_commit, dispatch_spec, handle_spec, MAX_FRAME_LEN};
use crate::sig::WotsBlake3;
use crate::tropic::Tropic;
use crate::util::{ct_eq_32, to_array_32};
use vstd::prelude::*;

verus! {

/// The value at which the device enrolls its counter.
pub const ENROLL_H0: u32 = 1000;

/// Each byte of the device's anchor.
pub const ANCHOR: u8 = 0xA0;

/// Each byte of the self-test's authority policy.
pub const POLICY: u8 = 0xB0;

/// Each byte of the active root at index zero.
pub const GENESIS: u8 = 0x00;

/// Each byte of the root to which the self-test advances.
pub const NEXT_ROOT: u8 = 0x11;

/// Each byte of the self-test's receiver challenge.
pub const RCHAL: u8 = 0x55;

pub const T_REL: u8 = 1;

pub const T_OBJ: u8 = 2;

pub const T_SND: u8 = 3;

pub const T_RCV: u8 = 4;

pub const T_PAY: u8 = 9;

pub const LEAF_OLD: u8 = 0xAB;

pub const LEAF_NEW: u8 = 0xCD;

/// A byte `n` times over.
pub open spec fn repeated_spec(b: u8, n: nat) -> Seq<u8> {
    Seq::new(n, |i: int| b)
}

/// A byte 32 times over.
pub open spec fn block(b: u8) -> Seq<u8> {
    repeated_spec(b, 32)
}

/// A byte 32 times over.
pub fn filled(b: u8) -> (a: [u8; 32])
    ensures
        a@ == block(b),
{
    let a: [u8; 32] = [b; 32];
    assert(a@ =~= block(b));
    a
}

/// A byte `n` times over.
pub fn repeated(b: u8, n: usize) -> (v: Vec<u8>)
    ensures
        v@ == repeated_spec(b, n as nat),
{
    let mut v: Vec<u8> = Vec::new();
    for i in 0..n
        invariant
            v@ == repeated_spec(b, i as nat),
    {
        v.push(b);
        assert(v@ =~= repeated_spec(b, (i + 1) as nat));
    }
    v
}

fn action_fields() -> (v: Vec<u8>)
    ensures
        v@ == seq![0xAAu8, 0xBBu8],
{
    let mut v: Vec<u8> = Vec::new();
    v.push(0xAA);
    v.push(0xBB);
    assert(v@ =~= seq![0xAAu8, 0xBBu8]);
    v
}

/// The self-test's own state verifier. The device is the producer and has no tree to check, so
/// every answer is yes; a real receiver has a verifier backed by its state.
pub struct TrivialDsm;

impl DsmVerifier for TrivialDsm {
    open spec fn commits(&self, prev_root: Seq<u8>, anchor_counter: u64) -> bool {
        true
    }

    open spec fn proves(&self, t: TransitionView) -> bool {
        true
    }

    open spec fn delivers(&self, t: TransitionView) -> bool {
        true
    }

    fn root_commits_counter(&self, prev_root: &[u8; 32], anchor_counter: u64) -> (answer: bool) {
        true
    }

    fn verify_transition(&self, t: &Transition) -> (answer: bool) {
        true
    }

    fn delivers_to_receiver(&self, t: &Transition) -> (answer: bool) {
        true
    }
}

/// The self-test's own counter verifier, which stands for a faithful chip read: it attests the
/// claimed value. A real receiver opens its own authenticated session and never takes the claim.
pub struct SelfCounter;

impl CounterVerifier for SelfCounter {
    open spec fn attests(&self, anchor_id: Seq<u8>, ev: CounterEvidenceView) -> Option<u64> {
        Some(ev.live_counter_claim)
    }

    fn read_authentic_counter(&self, anchor_id: &[u8; 32], ev: &CounterEvidence) -> (attested:
        Option<u64>) {
        Some(ev.live_counter_claim)
    }
}

/// The transition of the self-test.
pub open spec fn transition_spec() -> TransitionView {
    TransitionView {
        relationship_id: block(T_REL),
        object_id: block(T_OBJ),
        sender_device_id: block(T_SND),
        recipient_device_id: block(T_RCV),
        prev_root: block(GENESIS),
        next_root: block(NEXT_ROOT),
        anchor_counter: 0,
        next_anchor_counter: 1,
        action_type: 0,
        action_fields: seq![0xAAu8, 0xBBu8],
        payload_hash: block(T_PAY),
        old_leaf_proof: repeated_spec(LEAF_OLD, 40),
        new_leaf_proof: repeated_spec(LEAF_NEW, 40),
        authority_policy_hash: block(POLICY),
    }
}

/// The request that prepares the transition of the self-test.
pub open spec fn prepare_request_spec() -> pb::ApplianceRequestView {
    pb::ApplianceRequestView {
        op: pb::Op::Prepare.wire(),
        transition: Some(transition_spec()),
        receiver_challenge: block(RCHAL),
    }
}

/// A request that carries nothing but its operation.
pub open spec fn bare_request_spec(op: pb::Op) -> pb::ApplianceRequestView {
    pb::ApplianceRequestView { op: op.wire(), ..pb::ApplianceRequest::blank() }
}

/// The request that prepares the transition of the self-test.
pub fn prepare_request() -> (req: pb::ApplianceRequest)
    ensures
        req@ == prepare_request_spec(),
{
    pb::ApplianceRequest {
        op: pb::Op::Prepare.to_wire(),
        transition: Some(
            pb::TransitionPackage {
                relationship_id: repeated(T_REL, 32),
                object_id: repeated(T_OBJ, 32),
                sender_device_id: repeated(T_SND, 32),
                recipient_device_id: repeated(T_RCV, 32),
                prev_root: repeated(GENESIS, 32),
                next_root: repeated(NEXT_ROOT, 32),
                anchor_counter: 0,
                next_anchor_counter: 1,
                action_type: 0,
                action_fields: action_fields(),
                payload_hash: repeated(T_PAY, 32),
                old_leaf_proof: repeated(LEAF_OLD, 40),
                new_leaf_proof: repeated(LEAF_NEW, 40),
                authority_policy_hash: repeated(POLICY, 32),
            },
        ),
        receiver_challenge: repeated(RCHAL, 32),
    }
}

/// A request that carries nothing but its operation.
pub fn bare_request(op: pb::Op) -> (req: pb::ApplianceRequest)
    ensures
        req@ == bare_request_spec(op),
{
    let mut req: pb::ApplianceRequest = pb::ApplianceRequest::empty();
    req.op = op.to_wire();
    req
}

/// What the self-test found.
#[derive(Clone, Copy, PartialEq, Eq, Debug, Structural)]
pub struct SelfTest {
    /// Every operation was answered with success.
    pub ops_ok: bool,
    /// Length of the witness public key.
    pub pk_len: usize,
    /// Length of the witness signature.
    pub sig_len: usize,
    /// The active index afterwards.
    pub st_index: u64,
    /// The status code afterwards.
    pub st_status: u32,
    /// The emitted release was accepted.
    pub verify_ok: bool,
    /// The advance ended at the expected root.
    pub frontier_match: bool,
}

/// The context of the receiver in the self-test.
pub open spec fn context_spec() -> VerifierContextView {
    VerifierContextView {
        accepted_prev_root: block(GENESIS),
        pinned_anchor_id: block(ANCHOR),
        expected_receiver_challenge: block(RCHAL),
        expected_policy_hash: block(POLICY),
        enrolled_counter: ENROLL_H0 as u64,
        exposure_cap_index: ENROLL_H0 as u64,
        anchor_uncompromised: true,
    }
}

/// Whether the receiver of the self-test accepts a release.
pub open spec fn accepted_spec(rel: OfflineReleaseView) -> bool {
    accept_spec::<WotsBlake3>(
        rel,
        context_spec(),
        true,
        true,
        true,
        Some(rel.counter.live_counter_claim),
    ) is Ok
}

/// Whether a release message stands for a release that the receiver of the self-test accepts.
pub open spec fn verified_spec(m: Option<pb::OfflineReleaseView>) -> bool {
    m matches Some(m) && (release_of_message(m) matches Ok(rel) && accepted_spec(rel))
}

/// The responses to the five requests of the self-test.
pub struct Responses {
    pub prepare: pb::ApplianceResponseView,
    pub commit: pb::ApplianceResponseView,
    pub emit: pb::ApplianceResponseView,
    pub finalize: pb::ApplianceResponseView,
    pub status: pb::ApplianceResponseView,
}

/// What the self-test finds in the responses.
pub open spec fn report_spec(r: Responses) -> SelfTest {
    let cert = match r.emit.release {
        Some(rel) => rel.cert,
        None => None,
    };
    SelfTest {
        ops_ok: r.prepare.ok && r.commit.ok && r.emit.ok && r.finalize.ok && r.status.ok,
        pk_len: match cert {
            Some(c) => c.pk_hw.len() as usize,
            None => 0,
        },
        sig_len: match cert {
            Some(c) => c.sigma.len() as usize,
            None => 0,
        },
        st_index: r.status.active_index,
        st_status: r.status.status,
        verify_ok: verified_spec(r.emit.release),
        frontier_match: r.finalize.active_root == block(NEXT_ROOT),
    }
}

/// One exchange: `req` takes the appliance from `before` to `after` and is answered `resp`.
pub open spec fn exchanged<T: Tropic>(
    before: ApplianceView<T, WotsBlake3>,
    req: pb::ApplianceRequestView,
    after: ApplianceView<T, WotsBlake3>,
    resp: pb::ApplianceResponseView,
) -> bool {
    handle_spec(before, pb::ApplianceRequest::encoded(req), after, resp)
}

/// The five exchanges of the self-test, with the appliance at `s0` to `s5` between them.
pub open spec fn ran<T: Tropic>(
    s0: ApplianceView<T, WotsBlake3>,
    s1: ApplianceView<T, WotsBlake3>,
    s2: ApplianceView<T, WotsBlake3>,
    s3: ApplianceView<T, WotsBlake3>,
    s4: ApplianceView<T, WotsBlake3>,
    s5: ApplianceView<T, WotsBlake3>,
    r: Responses,
) -> bool {
    &&& exchanged(s0, prepare_request_spec(), s1, r.prepare)
    &&& exchanged(s1, bare_request_spec(pb::Op::Commit), s2, r.commit)
    &&& exchanged(s2, bare_request_spec(pb::Op::Emit), s3, r.emit)
    &&& exchanged(s3, bare_request_spec(pb::Op::Finalize), s4, r.finalize)
    &&& exchanged(s4, bare_request_spec(pb::Op::Status), s5, r.status)
}

/// The self-test took the appliance from `before` to `after` and found `found`.
pub open spec fn tested<T: Tropic>(
    before: ApplianceView<T, WotsBlake3>,
    after: ApplianceView<T, WotsBlake3>,
    found: SelfTest,
) -> bool {
    exists|
        s1: ApplianceView<T, WotsBlake3>,
        s2: ApplianceView<T, WotsBlake3>,
        s3: ApplianceView<T, WotsBlake3>,
        s4: ApplianceView<T, WotsBlake3>,
        s5: ApplianceView<T, WotsBlake3>,
        r: Responses,
    | #[trigger]
        ran(before, s1, s2, s3, s4, s5, r) && s5 == after && found == report_spec(r)
}

impl SelfTest {
    /// Everything is as it has to be after one root advance.
    pub open spec fn passed_spec(self) -> bool {
        &&& self.ops_ok
        &&& self.pk_len == 32
        &&& self.sig_len == 67 * 32
        &&& self.st_index == 1
        &&& self.st_status == 0
        &&& self.verify_ok
        &&& self.frontier_match
    }

    /// Whether the self-test passed.
    pub fn passed(&self) -> (pass: bool)
        ensures
            pass == self.passed_spec(),
    {
        self.ops_ok && self.pk_len == 32 && self.sig_len == 67 * 32 && self.st_index == 1
            && self.st_status == 0 && self.verify_ok && self.frontier_match
    }
}

/// One exchange through the secure core: encode, handle, decode. The core's responses always
/// decode.
pub fn rt<T: Tropic>(
    core: &mut SecureCore<T, WotsBlake3>,
    req: &pb::ApplianceRequest,
) -> (answered: Result<pb::ApplianceResponse, &'static str>)
    requires
        asks_commit(req@) ==> old(core)@.key_usable(),
    ensures
        answered matches Ok(resp) && exchanged(old(core)@, req@, final(core)@, resp@),
        old(core)@.key_usable() ==> final(core)@.key_usable(),
{
    proof {
        if pb::ApplianceRequest::encoded(req@).len() <= MAX_FRAME_LEN {
            lemma_request_round_trip(req@);
        }
    }
    let out: Vec<u8> = core.handle(encode_request(req).as_slice());
    let n: usize = out.len();
    proof {
        let resp = choose|resp: pb::ApplianceResponseView|
            {
                &&& #[trigger] handle_spec(
                    old(core)@,
                    pb::ApplianceRequest::encoded(req@),
                    core@,
                    resp,
                )
                &&& out@ == pb::ApplianceResponse::encoded(resp)
            };
        lemma_response_round_trip(resp);
    }
    match decode_response(out.as_slice()) {
        Ok(resp) => Ok(resp),
        Err(_) => Err("decode_response"),
    }
}

/// Whether a release message stands for a release that the receiver of the self-test accepts.
pub fn verified(m: &Option<pb::OfflineRelease>) -> (ok: bool)
    ensures
        ok == verified_spec(view_of(*m)),
{
    let rel: OfflineRelease = match m {
        None => {
            return false;
        },
        Some(m) => match m.to_release() {
            Err(_) => {
                return false;
            },
            Ok(rel) => rel,
        },
    };
    let genesis: [u8; 32] = filled(GENESIS);
    let anchor: [u8; 32] = filled(ANCHOR);
    let challenge: [u8; 32] = filled(RCHAL);
    let policy: [u8; 32] = filled(POLICY);
    let ctx: VerifierContext = VerifierContext {
        accepted_prev_root: &genesis,
        pinned_anchor_id: &anchor,
        expected_receiver_challenge: &challenge,
        expected_policy_hash: &policy,
        enrolled_counter: ENROLL_H0 as u64,
        exposure_cap_index: ENROLL_H0 as u64,
        anchor_uncompromised: true,
    };
    assert(ctx@ =~= context_spec());
    let verdict = accept_offline::<WotsBlake3, TrivialDsm, SelfCounter>(
        &rel,
        &ctx,
        &TrivialDsm,
        &SelfCounter,
    );
    verdict.is_ok()
}

/// What the self-test finds in the responses of the five exchanges.
pub fn report(
    prepare: &pb::ApplianceResponse,
    commit: &pb::ApplianceResponse,
    emit: &pb::ApplianceResponse,
    finalize: &pb::ApplianceResponse,
    status: &pb::ApplianceResponse,
) -> (found: SelfTest)
    ensures
        found == report_spec(
            Responses {
                prepare: prepare@,
                commit: commit@,
                emit: emit@,
                finalize: finalize@,
                status: status@,
            },
        ),
{
    let (pk_len, sig_len) = match &emit.release {
        Some(rel) => match &rel.cert {
            Some(c) => (c.pk_hw.len(), c.sigma.len()),
            None => (0usize, 0usize),
        },
        None => (0usize, 0usize),
    };
    let frontier_match: bool = finalize.active_root.len() == 32 && ct_eq_32(
        &to_array_32(finalize.active_root.as_slice()),
        &filled(NEXT_ROOT),
    );
    SelfTest {
        ops_ok: prepare.ok && commit.ok && emit.ok && finalize.ok && status.ok,
        pk_len,
        sig_len,
        st_index: status.active_index,
        st_status: status.status,
        verify_ok: verified(&emit.release),
        frontier_match,
    }
}

/// Drives one root advance through the secure core (prepare, commit, emit, finalize, status), and
/// has the emitted release verified as a receiver would.
pub fn self_test<T: Tropic>(core: &mut SecureCore<T, WotsBlake3>) -> (outcome: Result<
    SelfTest,
    &'static str,
>)
    requires
        old(core)@.key_usable(),
    ensures
        outcome matches Ok(found) && tested(old(core)@, final(core)@, found),
        final(core)@.key_usable(),
{
    let ghost s0 = core@;
    let prepare: pb::ApplianceResponse = rt(core, &prepare_request())?;
    let ghost s1 = core@;
    let commit: pb::ApplianceResponse = rt(core, &bare_request(pb::Op::Commit))?;
    let ghost s2 = core@;
    let emit: pb::ApplianceResponse = rt(core, &bare_request(pb::Op::Emit))?;
    let ghost s3 = core@;
    let finalize: pb::ApplianceResponse = rt(core, &bare_request(pb::Op::Finalize))?;
    let ghost s4 = core@;
    let status: pb::ApplianceResponse = rt(core, &bare_request(pb::Op::Status))?;
    let found: SelfTest = report(&prepare, &commit, &emit, &finalize, &status);
    proof {
        let r = Responses {
            prepare: prepare@,
            commit: commit@,
            emit: emit@,
            finalize: finalize@,
            status: status@,
        };
        assert(ran(s0, s1, s2, s3, s4, core@, r));
    }
    Ok(found)
}

/// An exchange that succeeds was dispatched: the request arrived as it was sent.
proof fn lemma_exchange_dispatched<T: Tropic>(
    before: ApplianceView<T, WotsBlake3>,
    req: pb::ApplianceRequestView,
    after: ApplianceView<T, WotsBlake3>,
    resp: pb::ApplianceResponseView,
)
    requires
        exchanged(before, req, after, resp),
        resp.ok,
    ensures
        dispatch_spec(before, req, after, resp),
{
    if pb::ApplianceRequest::encoded(req).len() <= MAX_FRAME_LEN {
        lemma_request_round_trip(req);
    }
}

/// A fresh appliance that answers every request of the self-test with success passes it: the
/// release that it emits is accepted, the root and the index have advanced, and it is ready again.
pub proof fn lemma_self_test_passes<T: Tropic>(
    before: ApplianceView<T, WotsBlake3>,
    after: ApplianceView<T, WotsBlake3>,
    found: SelfTest,
)
    requires
        before.coherent(),
        before.active.root@ == block(GENESIS),
        before.active.u == 0,
        before.anchor_id@ == block(ANCHOR),
        before.h0 == ENROLL_H0,
        tested(before, after, found),
        found.ops_ok,
    ensures
        found.passed_spec(),
        after.coherent(),
{
    let (s1, s2, s3, s4, s5, r) = choose|
        s1: ApplianceView<T, WotsBlake3>,
        s2: ApplianceView<T, WotsBlake3>,
        s3: ApplianceView<T, WotsBlake3>,
        s4: ApplianceView<T, WotsBlake3>,
        s5: ApplianceView<T, WotsBlake3>,
        r: Responses,
    | #[trigger]
        ran(before, s1, s2, s3, s4, s5, r) && s5 == after && found == report_spec(r);
    let t = transition_spec();
    let challenge = block(RCHAL);
    lemma_exchange_dispatched(before, prepare_request_spec(), s1, r.prepare);
    assert(before.prepare_spec(t, challenge, &s1, Ok(())));
    lemma_exchange_dispatched(s1, bare_request_spec(pb::Op::Commit), s2, r.commit);
    assert(s1.commit_spec(&s2, Ok(())));
    lemma_exchange_dispatched(s2, bare_request_spec(pb::Op::Emit), s3, r.emit);
    lemma_exchange_dispatched(s3, bare_request_spec(pb::Op::Finalize), s4, r.finalize);
    let root = choose|root: [u8; 32]| #[trigger]
        s3.finalize_spec(&s4, Ok(root)) && r.finalize.active_root == root@;
    lemma_exchange_dispatched(s4, bare_request_spec(pb::Op::Status), s5, r.status);
    lemma_advance(before, t, challenge, s1, s2, s4, root);
    let rel = s2.exported()->0;
    lemma_prepare_keeps_coherence(before, t, challenge, s1, Ok(()));
    lemma_commit_keeps_coherence(s1, s2, Ok(()));
    lemma_export_is_accepted(s2, rel, context_spec(), rel.counter.live_counter_claim);
    if let Record::Committed(c) = s2.active.record {
        lemma_release_conversion(c.release);
    }
}

/// What the self-test asks to prepare, byte by byte: an advance from the all-zero root at index 0
/// to the root of bytes 0x11 at index 1, with the challenge of bytes 0x55.
pub proof fn lemma_self_test_request()
    ensures
        ({
            let req = prepare_request_spec();
            &&& req.op == 1
            &&& req.receiver_challenge.len() == 32
            &&& forall|i: int| 0 <= i < 32 ==> req.receiver_challenge[i] == 0x55
            &&& req.transition matches Some(t) && ({
                &&& t.shaped()
                &&& forall|i: int| 0 <= i < 32 ==> t.relationship_id[i] == 1
                &&& forall|i: int| 0 <= i < 32 ==> t.object_id[i] == 2
                &&& forall|i: int| 0 <= i < 32 ==> t.sender_device_id[i] == 3
                &&& forall|i: int| 0 <= i < 32 ==> t.recipient_device_id[i] == 4
                &&& forall|i: int| 0 <= i < 32 ==> t.prev_root[i] == 0
                &&& forall|i: int| 0 <= i < 32 ==> t.next_root[i] == 0x11
                &&& t.anchor_counter == 0
                &&& t.next_anchor_counter == 1
                &&& t.action_type == 0
                &&& t.action_fields == seq![0xAAu8, 0xBBu8]
                &&& forall|i: int| 0 <= i < 32 ==> t.payload_hash[i] == 9
                &&& t.old_leaf_proof.len() == 40
                &&& forall|i: int| 0 <= i < 40 ==> t.old_leaf_proof[i] == 0xAB
                &&& t.new_leaf_proof.len() == 40
                &&& forall|i: int| 0 <= i < 40 ==> t.new_leaf_proof[i] == 0xCD
                &&& forall|i: int| 0 <= i < 32 ==> t.authority_policy_hash[i] == 0xB0
            })
        }),
{
}

/// A request that carries nothing but its operation has no transition and no challenge.
pub proof fn lemma_bare_request_in_full(op: pb::Op)
    ensures
        bare_request_spec(op).op == op.wire(),
        bare_request_spec(op).transition is None,
        bare_request_spec(op).receiver_challenge.len() == 0,
{
}

/// The receiver of the self-test: it holds the all-zero root, has pinned the anchor of bytes 0xA0
/// whose counter was enrolled at 1000, and supplied the challenge and the policy of the request.
pub proof fn lemma_self_test_context()
    ensures
        ({
            let ctx = context_spec();
            &&& ctx.accepted_prev_root.len() == 32
            &&& forall|i: int| 0 <= i < 32 ==> ctx.accepted_prev_root[i] == 0
            &&& ctx.pinned_anchor_id.len() == 32
            &&& forall|i: int| 0 <= i < 32 ==> ctx.pinned_anchor_id[i] == 0xA0
            &&& ctx.expected_receiver_challenge == prepare_request_spec().receiver_challenge
            &&& ctx.expected_policy_hash == (
            prepare_request_spec().transition->0).authority_policy_hash
            &&& ctx.enrolled_counter == 1000
            &&& ctx.exposure_cap_index == 1000
            &&& ctx.anchor_uncompromised
        }),
{
}

/// What the self-test reports: success of all five operations, the lengths that were emitted, the
/// index and status that the STATUS reported, whether the emitted release is accepted at the
/// counter value that it claims, and whether the FINALIZE answered 32 bytes 0x11.
pub proof fn lemma_report_in_full(r: Responses)
    ensures
        ({
            let found = report_spec(r);
            &&& found.ops_ok <==> r.prepare.ok && r.commit.ok && r.emit.ok && r.finalize.ok
                && r.status.ok
            &&& r.emit.release matches Some(rel) ==> (rel.cert matches Some(c) ==> {
                &&& c.pk_hw.len() <= usize::MAX ==> found.pk_len == c.pk_hw.len()
                &&& c.sigma.len() <= usize::MAX ==> found.sig_len == c.sigma.len()
            })
            &&& (r.emit.release is None || (r.emit.release->0).cert is None) ==> found.pk_len == 0
                && found.sig_len == 0
            &&& found.st_index == r.status.active_index
            &&& found.st_status == r.status.status
            &&& found.verify_ok <==> (r.emit.release matches Some(m) && (
            release_of_message(m) matches Ok(rel) && accept_spec::<WotsBlake3>(
                rel,
                context_spec(),
                true,
                true,
                true,
                Some(rel.counter.live_counter_claim),
            ) is Ok))
            &&& found.frontier_match <==> r.finalize.active_root.len() == 32 && (forall|i: int|
                0 <= i < 32 ==> r.finalize.active_root[i] == 0x11)
        }),
{
    if r.finalize.active_root.len() == 32 && (forall|i: int|
        0 <= i < 32 ==> r.finalize.active_root[i] == 0x11) {
        assert(r.finalize.active_root =~= block(NEXT_ROOT));
    }
}

/// The self-test passes exactly if all operations succeeded, the key has 32 bytes and the signature
/// 67 times as many, the appliance stands ready at index 1, and the receiver accepts and finds the
/// root where it has to be.
pub proof fn lemma_passed_in_full(found: SelfTest)
    ensures
        found.passed_spec() <==> found.ops_ok && found.pk_len == 32 && found.sig_len == 2144
            && found.st_index == 1 && found.st_status == 0 && found.verify_ok
            && found.frontier_match,
{
}

/// The self-test is five frames in this order: PREPARE, COMMIT, EMIT, FINALIZE, STATUS. The report
/// is about their responses.
pub proof fn lemma_self_test_exchanges<T: Tropic>(
    before: ApplianceView<T, WotsBlake3>,
    after: ApplianceView<T, WotsBlake3>,
    found: SelfTest,
) -> (run: (Seq<ApplianceView<T, WotsBlake3>>, Responses))
    requires
        tested(before, after, found),
    ensures
        ({
            let (s, r) = run;
            let bare = |op: i32|
                pb::ApplianceRequest::encoded(
                    pb::ApplianceRequestView {
                        op,
                        transition: None,
                        receiver_challenge: Seq::empty(),
                    },
                );
            &&& s.len() == 6
            &&& s.first() == before
            &&& s.last() == after
            &&& handle_spec(
                s[0],
                pb::ApplianceRequest::encoded(prepare_request_spec()),
                s[1],
                r.prepare,
            )
            &&& handle_spec(s[1], bare(2), s[2], r.commit)
            &&& handle_spec(s[2], bare(3), s[3], r.emit)
            &&& handle_spec(s[3], bare(4), s[4], r.finalize)
            &&& handle_spec(s[4], bare(5), s[5], r.status)
            &&& found == report_spec(r)
        }),
{
    let (s1, s2, s3, s4, s5, r) = choose|
        s1: ApplianceView<T, WotsBlake3>,
        s2: ApplianceView<T, WotsBlake3>,
        s3: ApplianceView<T, WotsBlake3>,
        s4: ApplianceView<T, WotsBlake3>,
        s5: ApplianceView<T, WotsBlake3>,
        r: Responses,
    | #[trigger]
        ran(before, s1, s2, s3, s4, s5, r) && s5 == after && found == report_spec(r);
    assert forall|op: pb::Op| #[trigger]
        bare_request_spec(op) == (pb::ApplianceRequestView {
            op: op.wire(),
            transition: None,
            receiver_challenge: Seq::empty(),
        }) by {}
    assert(pb::Op::Commit.wire() == 2 && pb::Op::Emit.wire() == 3 && pb::Op::Finalize.wire() == 4
        && pb::Op::Status.wire() == 5);
    (seq![before, s1, s2, s3, s4, s5], r)
}

} // verus!
