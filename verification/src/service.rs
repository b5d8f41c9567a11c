//! The appliance service: decode a request, drive the appliance, encode the response.
//!
//! `handle` is the single mediated entry point. The transport reaches the chip through it alone,
//! and holds no chip handle of its own.
pub mod err;

use crate::accept::{accept_spec, VerifierContextView};
use crate::appliance::{Active, Appliance, ApplianceError, ApplianceView, Record, Status};
use crate::lifecycle::{
    lemma_cancel_keeps_coherence, lemma_commit_keeps_coherence, lemma_commit_then_accept,
    lemma_finalize_keeps_coherence, lemma_prepare_keeps_coherence,
};
use crate::proto::message::Message;
use crate::proto::schema::lemma_plain_response_is_short;
use crate::proto::{
    arr32, decode_request, encode_response, lemma_release_conversion, lemma_request_round_trip,
    lemma_response_round_trip, message_of, pb, release_message, release_of_message, ProtoError,
};
use crate::root_advance::{OfflineReleaseView, OwnedTransition};
use crate::tropic::{Tropic, WitnessSig};
use vstd::prelude::*;
use vstd::slice::slice_to_vec;

verus! {

/// The longest request frame, a backstop against absurd inputs before anything is decoded. The
/// transport has to enforce a cap of its own at its receive edge.
pub const MAX_FRAME_LEN: usize = 64 * 1024;

/// The code of an appliance error.
pub open spec fn appliance_code_spec(e: ApplianceError) -> u32 {
    match e {
        ApplianceError::WrongState => err::WRONG_STATE,
        ApplianceError::PrevRootMismatch => err::PARENT_MISMATCH,
        ApplianceError::IndexMismatch => err::INDEX_MISMATCH,
        ApplianceError::CounterMismatch => err::COUNTER_MISMATCH,
        ApplianceError::WitnessKeyLost => err::WITNESS_KEY_LOST,
        ApplianceError::CounterExhausted => err::COUNTER_EXHAUSTED,
        ApplianceError::NotCommitted => err::NOT_COMMITTED,
        ApplianceError::Tropic(_) => err::TROPIC,
    }
}

/// The code of a protocol error.
pub open spec fn proto_code_spec(e: ProtoError) -> u32 {
    match e {
        ProtoError::MissingField => err::MISSING_FIELD,
        ProtoError::BadOp => err::BAD_OP,
        _ => err::BAD_PROTO,
    }
}

/// The code of a status.
pub open spec fn status_code_spec(s: Status) -> u32 {
    match s {
        Status::Ready => 0,
        Status::Prepared => 1,
        Status::Committed => 2,
    }
}

/// A response that says nothing but which operation it answers.
pub open spec fn base_spec(op: i32) -> pb::ApplianceResponseView {
    pb::ApplianceResponseView {
        op,
        ok: false,
        error: err::NONE,
        release: None,
        active_root: Seq::empty(),
        active_index: 0,
        status: 0,
    }
}

/// The response to a success that carries nothing.
pub open spec fn ok_spec(op: i32) -> pb::ApplianceResponseView {
    pb::ApplianceResponseView { ok: true, ..base_spec(op) }
}

/// The response to a failure.
pub open spec fn fail_spec(op: i32, code: u32) -> pb::ApplianceResponseView {
    pb::ApplianceResponseView { error: code, ..base_spec(op) }
}

/// The response to an operation that ends in `result` and carries nothing.
pub open spec fn answer_spec(
    op: i32,
    result: Result<(), ApplianceError>,
) -> pb::ApplianceResponseView {
    match result {
        Ok(_) => ok_spec(op),
        Err(e) => fail_spec(op, appliance_code_spec(e)),
    }
}

/// The response to a `finalize` that ends in `result`.
pub open spec fn finalized_spec(
    op: i32,
    result: Result<[u8; 32], ApplianceError>,
) -> pb::ApplianceResponseView {
    match result {
        Ok(root) => pb::ApplianceResponseView { active_root: root@, ..ok_spec(op) },
        Err(e) => fail_spec(op, appliance_code_spec(e)),
    }
}

/// What dispatching `req` does: the appliance goes from `before` to `after`, and the response is
/// `resp`.
pub open spec fn dispatch_spec<T: Tropic, S: WitnessSig>(
    before: ApplianceView<T, S>,
    req: pb::ApplianceRequestView,
    after: ApplianceView<T, S>,
    resp: pb::ApplianceResponseView,
) -> bool {
    let op = req.op;
    match pb::Op::of_wire(op) {
        Some(pb::Op::Prepare) => match req.transition {
            None => resp == fail_spec(op, err::MISSING_FIELD) && after == before,
            Some(t) => if !t.shaped() || req.receiver_challenge.len() != 32 {
                resp == fail_spec(op, err::BAD_PROTO) && after == before
            } else {
                exists|result: Result<(), ApplianceError>|
                    {
                        &&& #[trigger] before.prepare_spec(
                            t,
                            req.receiver_challenge,
                            &after,
                            result,
                        )
                        &&& resp == answer_spec(op, result)
                    }
            },
        },
        Some(pb::Op::Commit) => exists|result: Result<(), ApplianceError>|
            {
                &&& #[trigger] before.commit_spec(&after, result)
                &&& resp == answer_spec(op, result)
            },
        Some(pb::Op::Emit) => {
            &&& after == before
            &&& resp == match before.exported() {
                Some(rel) => pb::ApplianceResponseView {
                    release: Some(release_message(rel)),
                    ..ok_spec(op)
                },
                None => fail_spec(op, err::NOT_COMMITTED),
            }
        },
        Some(pb::Op::Finalize) => exists|result: Result<[u8; 32], ApplianceError>|
            {
                &&& #[trigger] before.finalize_spec(&after, result)
                &&& resp == finalized_spec(op, result)
            },
        Some(pb::Op::Status) => {
            &&& after == before
            &&& resp == pb::ApplianceResponseView {
                active_root: before.active.root@,
                active_index: before.active.u,
                status: status_code_spec(before.active.status),
                ..ok_spec(op)
            }
        },
        Some(pb::Op::Cancel) => exists|result: Result<(), ApplianceError>|
            {
                &&& #[trigger] before.cancel_spec(&after, result)
                &&& resp == answer_spec(op, result)
            },
        Some(pb::Op::Unspecified) | None => resp == fail_spec(op, err::BAD_OP) && after == before,
    }
}

/// What handling `frame` does: the appliance goes from `before` to `after`, and the response is
/// `resp`. A frame that is too long or that holds no request changes nothing.
pub open spec fn handle_spec<T: Tropic, S: WitnessSig>(
    before: ApplianceView<T, S>,
    frame: Seq<u8>,
    after: ApplianceView<T, S>,
    resp: pb::ApplianceResponseView,
) -> bool {
    if frame.len() > MAX_FRAME_LEN {
        resp == fail_spec(0, err::FRAME_TOO_LARGE) && after == before
    } else {
        match message_of::<pb::ApplianceRequest>(frame) {
            None => resp == fail_spec(0, err::BAD_PROTO) && after == before,
            Some(req) => dispatch_spec(before, req, after, resp),
        }
    }
}

/// Whether a request asks for a commit, the one operation that signs.
pub open spec fn asks_commit(req: pb::ApplianceRequestView) -> bool {
    pb::Op::of_wire(req.op) == Some(pb::Op::Commit)
}

/// Whether a frame holds a request for a commit.
pub open spec fn holds_commit(frame: Seq<u8>) -> bool {
    frame.len() <= MAX_FRAME_LEN && (message_of::<pb::ApplianceRequest>(frame) matches Some(req)
        && asks_commit(req))
}

/// The code of an appliance error.
pub fn appliance_code(e: ApplianceError) -> (code: u32)
    ensures
        code == appliance_code_spec(e),
{
    match e {
        ApplianceError::WrongState => err::WRONG_STATE,
        ApplianceError::PrevRootMismatch => err::PARENT_MISMATCH,
        ApplianceError::IndexMismatch => err::INDEX_MISMATCH,
        ApplianceError::CounterMismatch => err::COUNTER_MISMATCH,
        ApplianceError::WitnessKeyLost => err::WITNESS_KEY_LOST,
        ApplianceError::CounterExhausted => err::COUNTER_EXHAUSTED,
        ApplianceError::NotCommitted => err::NOT_COMMITTED,
        ApplianceError::Tropic(_) => err::TROPIC,
    }
}

/// The code of a protocol error.
pub fn proto_code(e: ProtoError) -> (code: u32)
    ensures
        code == proto_code_spec(e),
{
    match e {
        ProtoError::MissingField => err::MISSING_FIELD,
        ProtoError::BadOp => err::BAD_OP,
        _ => err::BAD_PROTO,
    }
}

/// The code of a status.
pub fn status_code(s: Status) -> (code: u32)
    ensures
        code == status_code_spec(s),
{
    match s {
        Status::Ready => 0,
        Status::Prepared => 1,
        Status::Committed => 2,
    }
}

fn base(op: i32) -> (resp: pb::ApplianceResponse)
    ensures
        resp@ == base_spec(op),
{
    pb::ApplianceResponse {
        op,
        ok: false,
        error: err::NONE,
        release: None,
        active_root: Vec::new(),
        active_index: 0,
        status: 0,
    }
}

fn ok(op: i32) -> (resp: pb::ApplianceResponse)
    ensures
        resp@ == ok_spec(op),
{
    let mut resp: pb::ApplianceResponse = base(op);
    resp.ok = true;
    resp
}

fn fail(op: i32, code: u32) -> (resp: pb::ApplianceResponse)
    ensures
        resp@ == fail_spec(op, code),
{
    let mut resp: pb::ApplianceResponse = base(op);
    resp.error = code;
    resp
}

fn answer(op: i32, result: Result<(), ApplianceError>) -> (resp: pb::ApplianceResponse)
    ensures
        resp@ == answer_spec(op, result),
{
    match result {
        Ok(_) => ok(op),
        Err(e) => fail(op, appliance_code(e)),
    }
}

/// Dispatches a decoded request against the appliance.
pub fn dispatch<T: Tropic, S: WitnessSig>(
    app: &mut Appliance<T, S>,
    req: &pb::ApplianceRequest,
) -> (resp: pb::ApplianceResponse)
    requires
        asks_commit(req@) ==> old(app)@.key_usable(),
    ensures
        dispatch_spec(old(app)@, req@, final(app)@, resp@),
        old(app)@.key_usable() ==> final(app)@.key_usable(),
{
    let op: i32 = req.op;
    match pb::Op::try_from(op) {
        Ok(pb::Op::Prepare) => {
            let t = match &req.transition {
                Some(t) => t,
                None => {
                    return fail(op, err::MISSING_FIELD);
                },
            };
            let owned: OwnedTransition = match t.to_owned_transition() {
                Ok(owned) => owned,
                Err(e) => {
                    return fail(op, proto_code(e));
                },
            };
            let challenge: [u8; 32] = match arr32(req.receiver_challenge.as_slice()) {
                Ok(challenge) => challenge,
                Err(e) => {
                    return fail(op, proto_code(e));
                },
            };
            let result: Result<(), ApplianceError> = app.prepare(
                &owned.as_transition(),
                &challenge,
            );
            answer(op, result)
        },
        Ok(pb::Op::Commit) => {
            let result: Result<(), ApplianceError> = app.commit();
            answer(op, result)
        },
        Ok(pb::Op::Emit) => match app.emit() {
            Ok(rel) => {
                let mut resp: pb::ApplianceResponse = ok(op);
                resp.release = Some(rel.to_pb());
                resp
            },
            Err(e) => fail(op, appliance_code(e)),
        },
        Ok(pb::Op::Finalize) => match app.finalize() {
            Ok(root) => {
                let mut resp: pb::ApplianceResponse = ok(op);
                resp.active_root = slice_to_vec(root.as_slice());
                assert(resp@ =~= finalized_spec(op, Ok(root)));
                resp
            },
            Err(e) => fail(op, appliance_code(e)),
        },
        Ok(pb::Op::Status) => {
            let mut resp: pb::ApplianceResponse = ok(op);
            let active: &Active = app.state();
            resp.active_root = slice_to_vec(active.root.as_slice());
            resp.active_index = active.u;
            resp.status = status_code(active.status);
            resp
        },
        Ok(pb::Op::Cancel) => {
            let result: Result<(), ApplianceError> = app.cancel();
            answer(op, result)
        },
        Ok(pb::Op::Unspecified) | Err(_) => fail(op, err::BAD_OP),
    }
}

/// Decodes a request frame, dispatches it, and encodes the response frame. A malformed frame gets
/// an error response.
pub fn handle<T: Tropic, S: WitnessSig>(app: &mut Appliance<T, S>, frame: &[u8]) -> (out: Vec<u8>)
    requires
        holds_commit(frame@) ==> old(app)@.key_usable(),
    ensures
        exists|resp: pb::ApplianceResponseView|
            {
                &&& #[trigger] handle_spec(old(app)@, frame@, final(app)@, resp)
                &&& out@ == pb::ApplianceResponse::encoded(resp)
            },
        old(app)@.key_usable() ==> final(app)@.key_usable(),
{
    if frame.len() > MAX_FRAME_LEN {
        let resp: pb::ApplianceResponse = fail(0, err::FRAME_TOO_LARGE);
        assert(handle_spec(old(app)@, frame@, app@, resp@));
        return encode_response(&resp);
    }
    match decode_request(frame) {
        Ok(req) => {
            let resp: pb::ApplianceResponse = dispatch(app, &req);
            assert(handle_spec(old(app)@, frame@, app@, resp@));
            encode_response(&resp)
        },
        Err(_) => {
            let resp: pb::ApplianceResponse = fail(0, err::BAD_PROTO);
            assert(handle_spec(old(app)@, frame@, app@, resp@));
            encode_response(&resp)
        },
    }
}

/// Whatever is asked and whatever the chip replies, a dispatched request keeps the appliance's
/// invariant.
pub proof fn lemma_dispatch_keeps_coherence<T: Tropic, S: WitnessSig>(
    before: ApplianceView<T, S>,
    req: pb::ApplianceRequestView,
    after: ApplianceView<T, S>,
    resp: pb::ApplianceResponseView,
)
    requires
        before.coherent(),
        dispatch_spec(before, req, after, resp),
    ensures
        after.coherent(),
{
    match pb::Op::of_wire(req.op) {
        Some(pb::Op::Prepare) => {
            if after != before {
                let t = req.transition->0;
                let result = choose|result: Result<(), ApplianceError>| #[trigger]
                    before.prepare_spec(t, req.receiver_challenge, &after, result);
                lemma_prepare_keeps_coherence(before, t, req.receiver_challenge, after, result);
            }
        },
        Some(pb::Op::Commit) => {
            let result = choose|result: Result<(), ApplianceError>| #[trigger]
                before.commit_spec(&after, result);
            lemma_commit_keeps_coherence(before, after, result);
        },
        Some(pb::Op::Finalize) => {
            let result = choose|result: Result<[u8; 32], ApplianceError>| #[trigger]
                before.finalize_spec(&after, result);
            lemma_finalize_keeps_coherence(before, after, result);
        },
        Some(pb::Op::Cancel) => {
            let result = choose|result: Result<(), ApplianceError>| #[trigger]
                before.cancel_spec(&after, result);
            lemma_cancel_keeps_coherence(before, after, result);
        },
        _ => {},
    }
}

/// Whatever frame comes in, and whatever the chip replies, handling it keeps the appliance's
/// invariant.
pub proof fn lemma_handle_keeps_coherence<T: Tropic, S: WitnessSig>(
    before: ApplianceView<T, S>,
    frame: Seq<u8>,
    after: ApplianceView<T, S>,
    resp: pb::ApplianceResponseView,
)
    requires
        before.coherent(),
        handle_spec(before, frame, after, resp),
    ensures
        after.coherent(),
{
    if after != before {
        let req = message_of::<pb::ApplianceRequest>(frame)->0;
        lemma_dispatch_keeps_coherence(before, req, after, resp);
    }
}

/// A frame that is not answered with success leaves the active state as it is, but for a commit
/// whose counter step failed: that one leaves its candidate behind, which cannot be exported yet.
pub proof fn lemma_refusal_changes_nothing<T: Tropic, S: WitnessSig>(
    before: ApplianceView<T, S>,
    frame: Seq<u8>,
    after: ApplianceView<T, S>,
    resp: pb::ApplianceResponseView,
)
    requires
        handle_spec(before, frame, after, resp),
        !resp.ok,
    ensures
        after.active == before.active || (before.active.record is Prepared
            && (after.active.record matches Record::Committed(c) && !c.committed)),
{
}

/// A release that is asked for over the wire arrives as it was: the response's bytes hold a
/// message that stands for the committed release.
pub proof fn lemma_emit_over_the_wire<T: Tropic, S: WitnessSig>(
    before: ApplianceView<T, S>,
    req: pb::ApplianceRequestView,
    after: ApplianceView<T, S>,
    resp: pb::ApplianceResponseView,
    rel: OfflineReleaseView,
)
    requires
        pb::Op::of_wire(req.op) == Some(pb::Op::Emit),
        pb::ApplianceRequest::encoded(req).len() <= MAX_FRAME_LEN,
        before.exported() == Some(rel),
        handle_spec(before, pb::ApplianceRequest::encoded(req), after, resp),
        pb::ApplianceResponse::encoded(resp).len() <= u64::MAX,
    ensures
        message_of::<pb::ApplianceResponse>(pb::ApplianceResponse::encoded(resp)) == Some(resp),
        resp.ok,
        resp.release matches Some(m) && release_of_message(m) == Ok::<
            OfflineReleaseView,
            ProtoError,
        >(rel),
        after == before,
{
    lemma_request_round_trip(req);
    lemma_response_round_trip(resp);
    if let Record::Committed(c) = before.active.record {
        lemma_release_conversion(c.release);
    }
}

/// A frame of more than 65536 bytes is answered with code 103, and one that holds no request with
/// code 100. Either answer is for operation 0 and carries nothing, and nothing changes.
pub proof fn lemma_bad_frame_is_answered<T: Tropic, S: WitnessSig>(
    before: ApplianceView<T, S>,
    frame: Seq<u8>,
    after: ApplianceView<T, S>,
    resp: pb::ApplianceResponseView,
)
    requires
        handle_spec(before, frame, after, resp),
        frame.len() > 65536 || message_of::<pb::ApplianceRequest>(frame) is None,
    ensures
        after == before,
        resp.op == 0,
        !resp.ok,
        resp.error == if frame.len() > 65536 {
            103
        } else {
            100u32
        },
        resp.release is None,
        resp.active_root.len() == 0,
        resp.active_index == 0,
        resp.status == 0,
{
}

/// A request that is read is answered for its own operation. The answer says success or gives a
/// code, never both, and a failure carries nothing else. A release comes with an EMIT alone, a root
/// with a FINALIZE or a STATUS, an index and a status with a STATUS. An operation that is none of
/// the six is answered with code 102, and nothing changes.
pub proof fn lemma_answer_in_full<T: Tropic, S: WitnessSig>(
    before: ApplianceView<T, S>,
    frame: Seq<u8>,
    req: pb::ApplianceRequestView,
    after: ApplianceView<T, S>,
    resp: pb::ApplianceResponseView,
)
    requires
        handle_spec(before, frame, after, resp),
        frame.len() <= 65536,
        message_of::<pb::ApplianceRequest>(frame) == Some(req),
    ensures
        resp.op == req.op,
        resp.ok <==> resp.error == 0,
        resp.release is Some <==> resp.ok && req.op == 3,
        !(resp.ok && (req.op == 4 || req.op == 5)) ==> resp.active_root.len() == 0,
        !(resp.ok && req.op == 5) ==> resp.active_index == 0 && resp.status == 0,
        !(1 <= req.op <= 6) ==> !resp.ok && resp.error == 102 && after == before,
{
}

/// The codes of the errors of the appliance.
pub proof fn lemma_error_codes(e: ApplianceError)
    ensures
        appliance_code_spec(e) == 1 <==> e is WrongState,
        appliance_code_spec(e) == 2 <==> e is PrevRootMismatch,
        appliance_code_spec(e) == 3 <==> e is IndexMismatch,
        appliance_code_spec(e) == 4 <==> e is CounterMismatch,
        appliance_code_spec(e) == 5 <==> e is WitnessKeyLost,
        appliance_code_spec(e) == 6 <==> e is CounterExhausted,
        appliance_code_spec(e) == 7 <==> e is NotCommitted,
        appliance_code_spec(e) == 8 <==> e is Tropic,
{
}

/// The codes of the errors of the protocol.
pub proof fn lemma_protocol_error_codes(e: ProtoError)
    ensures
        proto_code_spec(e) == 101 <==> e is MissingField,
        proto_code_spec(e) == 102 <==> e is BadOp,
        proto_code_spec(e) == 100 <==> e is Decode || e is BadLength || e is OutOfRange,
{
}

/// What is asked of the appliance for a PREPARE, and how it is answered: without a transition with
/// code 101, with a field of the wrong width with code 100, and otherwise by what became of the
/// request's own transition and challenge.
pub proof fn lemma_prepare_over_the_wire<T: Tropic, S: WitnessSig>(
    before: ApplianceView<T, S>,
    frame: Seq<u8>,
    req: pb::ApplianceRequestView,
    after: ApplianceView<T, S>,
    resp: pb::ApplianceResponseView,
)
    requires
        handle_spec(before, frame, after, resp),
        frame.len() <= 65536,
        message_of::<pb::ApplianceRequest>(frame) == Some(req),
        req.op == 1,
    ensures
        req.transition is None ==> resp.error == 101 && after == before,
        req.transition matches Some(t) ==> ({
            let shaped = t.relationship_id.len() == 32 && t.object_id.len() == 32
                && t.sender_device_id.len() == 32 && t.recipient_device_id.len() == 32
                && t.prev_root.len() == 32 && t.next_root.len() == 32 && t.payload_hash.len() == 32
                && t.authority_policy_hash.len() == 32 && req.receiver_challenge.len() == 32;
            &&& !shaped ==> resp.error == 100 && after == before
            &&& shaped ==> exists|result: Result<(), ApplianceError>|
                {
                    &&& #[trigger] before.prepare_spec(t, req.receiver_challenge, &after, result)
                    &&& resp.ok <==> result is Ok
                    &&& result matches Err(e) ==> resp.error == appliance_code_spec(e)
                }
        }),
{
}

/// What is asked of the appliance for a COMMIT, a FINALIZE or a CANCEL: that operation, and the
/// answer says how it ended. The root that a FINALIZE carries is the one that it has installed.
pub proof fn lemma_operation_over_the_wire<T: Tropic, S: WitnessSig>(
    before: ApplianceView<T, S>,
    frame: Seq<u8>,
    req: pb::ApplianceRequestView,
    after: ApplianceView<T, S>,
    resp: pb::ApplianceResponseView,
)
    requires
        handle_spec(before, frame, after, resp),
        frame.len() <= 65536,
        message_of::<pb::ApplianceRequest>(frame) == Some(req),
    ensures
        req.op == 2 ==> exists|result: Result<(), ApplianceError>|
            {
                &&& #[trigger] before.commit_spec(&after, result)
                &&& resp.ok <==> result is Ok
                &&& result matches Err(e) ==> resp.error == appliance_code_spec(e)
            },
        req.op == 4 ==> exists|result: Result<[u8; 32], ApplianceError>|
            {
                &&& #[trigger] before.finalize_spec(&after, result)
                &&& resp.ok <==> result is Ok
                &&& result matches Ok(root) ==> resp.active_root == root@
                    && after.active.root@ == root@
                &&& result matches Err(e) ==> resp.error == appliance_code_spec(e)
            },
        req.op == 6 ==> exists|result: Result<(), ApplianceError>|
            {
                &&& #[trigger] before.cancel_spec(&after, result)
                &&& resp.ok <==> result is Ok
                &&& result matches Err(e) ==> resp.error == appliance_code_spec(e)
            },
{
    if req.op == 4 {
        let result = choose|result: Result<[u8; 32], ApplianceError>|
            {
                &&& #[trigger] before.finalize_spec(&after, result)
                &&& resp == finalized_spec(req.op, result)
            };
        assert(before.finalize_spec(&after, result));
    }
}

/// An EMIT changes nothing. It carries the release of a committed record that is marked so, and is
/// answered with code 7 if there is none.
pub proof fn lemma_emit_in_full<T: Tropic, S: WitnessSig>(
    before: ApplianceView<T, S>,
    frame: Seq<u8>,
    req: pb::ApplianceRequestView,
    after: ApplianceView<T, S>,
    resp: pb::ApplianceResponseView,
)
    requires
        handle_spec(before, frame, after, resp),
        frame.len() <= 65536,
        message_of::<pb::ApplianceRequest>(frame) == Some(req),
        req.op == 3,
    ensures
        after == before,
        resp.ok <==> (before.active.record matches Record::Committed(c) && c.committed),
        !resp.ok ==> resp.error == 7,
        resp.ok ==> (resp.release matches Some(m) && release_of_message(m) == Ok::<
            OfflineReleaseView,
            ProtoError,
        >(before.active.record->Committed_0.release@)),
{
    if let Record::Committed(c) = before.active.record {
        lemma_release_conversion(c.release);
    }
}

/// A STATUS changes nothing and always succeeds. Whatever the record holds, it reports the active
/// root, the active index, and 0, 1 or 2 for ready, prepared or committed; and the response's bytes
/// are read back as just that.
pub proof fn lemma_status_over_the_wire<T: Tropic, S: WitnessSig>(
    before: ApplianceView<T, S>,
    frame: Seq<u8>,
    req: pb::ApplianceRequestView,
    after: ApplianceView<T, S>,
    resp: pb::ApplianceResponseView,
)
    requires
        handle_spec(before, frame, after, resp),
        frame.len() <= 65536,
        message_of::<pb::ApplianceRequest>(frame) == Some(req),
        req.op == 5,
    ensures
        after == before,
        resp.op == 5,
        resp.ok,
        resp.error == 0,
        resp.release is None,
        resp.active_root == before.active.root@,
        resp.active_index == before.active.u,
        resp.status == 0 <==> before.active.status is Ready,
        resp.status == 1 <==> before.active.status is Prepared,
        resp.status == 2 <==> before.active.status is Committed,
        message_of::<pb::ApplianceResponse>(pb::ApplianceResponse::encoded(resp)) == Some(resp),
{
    lemma_plain_response_is_short(resp);
    lemma_response_round_trip(resp);
}

/// Whatever frame comes in, the root moves only by a FINALIZE that succeeds, to the successor of
/// the committed record, which is also the root that it answers. The index moves only by a COMMIT
/// that succeeds, to the next index of the prepared record. What the appliance was set up with
/// never changes.
pub proof fn lemma_what_a_frame_can_move<T: Tropic, S: WitnessSig>(
    before: ApplianceView<T, S>,
    frame: Seq<u8>,
    after: ApplianceView<T, S>,
    resp: pb::ApplianceResponseView,
)
    requires
        handle_spec(before, frame, after, resp),
    ensures
        resp.ok && resp.op == 4 ==> (before.active.record matches Record::Committed(c)
            && c.committed && after.active.root == c.next_root && resp.active_root
            == c.next_root@),
        !(resp.ok && resp.op == 4) ==> after.active.root@ == before.active.root@,
        resp.ok && resp.op == 2 ==> (before.active.record matches Record::Prepared(p)
            && after.active.u == p.txn.next_anchor_counter),
        !(resp.ok && resp.op == 2) ==> after.active.u == before.active.u,
        after.h0 == before.h0,
        after.anchor_id == before.anchor_id,
        after.slot == before.slot,
        after.firmware_boundary_invalid == before.firmware_boundary_invalid,
        after.rmemory_map_invalid == before.rmemory_map_invalid,
{
}

/// The root stays over any run of frames in which no FINALIZE succeeds.
pub proof fn lemma_root_stays_until_finalize<T: Tropic, S: WitnessSig>(
    states: Seq<ApplianceView<T, S>>,
    frames: Seq<Seq<u8>>,
    resps: Seq<pb::ApplianceResponseView>,
)
    requires
        states.len() == frames.len() + 1,
        forall|i: int|
            #![trigger frames[i]]
            0 <= i < frames.len() ==> handle_spec(states[i], frames[i], states[i + 1], resps[i]),
        forall|i: int|
            #![trigger resps[i]]
            0 <= i < frames.len() ==> !(resps[i].ok && resps[i].op == 4),
    ensures
        states.last().active.root@ == states.first().active.root@,
    decreases frames.len(),
{
    if frames.len() > 0 {
        let last = frames.len() - 1;
        let earlier = frames.drop_last();
        assert(handle_spec(states[last], frames[last], states[last + 1], resps[last]));
        lemma_what_a_frame_can_move(states[last], frames[last], states[last + 1], resps[last]);
        assert forall|i: int| #![trigger earlier[i]] 0 <= i < earlier.len() implies handle_spec(
            states.drop_last()[i],
            earlier[i],
            states.drop_last()[i + 1],
            resps[i],
        ) by {
            assert(frames[i] == earlier[i]);
        }
        lemma_root_stays_until_finalize(states.drop_last(), earlier, resps);
    }
}

/// From a COMMIT that succeeds on, whatever is asked, a STATUS reports the parent's root for as
/// long as no FINALIZE succeeds.
pub proof fn lemma_status_after_commit<T: Tropic, S: WitnessSig>(
    states: Seq<ApplianceView<T, S>>,
    frames: Seq<Seq<u8>>,
    resps: Seq<pb::ApplianceResponseView>,
    frame: Seq<u8>,
    req: pb::ApplianceRequestView,
    after: ApplianceView<T, S>,
    resp: pb::ApplianceResponseView,
)
    requires
        states.len() == frames.len() + 1,
        forall|i: int|
            #![trigger frames[i]]
            0 <= i < frames.len() ==> handle_spec(states[i], frames[i], states[i + 1], resps[i]),
        forall|i: int|
            #![trigger resps[i]]
            0 <= i < frames.len() ==> !(resps[i].ok && resps[i].op == 4),
        frames.len() > 0,
        resps[0].ok,
        resps[0].op == 2,
        handle_spec(states.last(), frame, after, resp),
        frame.len() <= 65536,
        message_of::<pb::ApplianceRequest>(frame) == Some(req),
        req.op == 5,
    ensures
        states[0].active.record matches Record::Prepared(p) && resp.active_root
            == p.txn.prev_root@,
        resp.active_root == states[0].active.root@,
{
    assert(handle_spec(states[0], frames[0], states[1], resps[0]));
    lemma_what_a_frame_can_move(states[0], frames[0], states[1], resps[0]);
    lemma_root_stays_until_finalize(states, frames, resps);
    lemma_status_over_the_wire(states.last(), frame, req, after, resp);
}

/// From a FINALIZE that succeeds on, whatever is asked, a STATUS reports the root that it answered,
/// until another one succeeds.
pub proof fn lemma_status_after_finalize<T: Tropic, S: WitnessSig>(
    committed: ApplianceView<T, S>,
    finalize: Seq<u8>,
    finalized: pb::ApplianceResponseView,
    states: Seq<ApplianceView<T, S>>,
    frames: Seq<Seq<u8>>,
    resps: Seq<pb::ApplianceResponseView>,
    frame: Seq<u8>,
    req: pb::ApplianceRequestView,
    after: ApplianceView<T, S>,
    resp: pb::ApplianceResponseView,
)
    requires
        states.len() == frames.len() + 1,
        handle_spec(committed, finalize, states.first(), finalized),
        finalized.ok,
        finalized.op == 4,
        forall|i: int|
            #![trigger frames[i]]
            0 <= i < frames.len() ==> handle_spec(states[i], frames[i], states[i + 1], resps[i]),
        forall|i: int|
            #![trigger resps[i]]
            0 <= i < frames.len() ==> !(resps[i].ok && resps[i].op == 4),
        handle_spec(states.last(), frame, after, resp),
        frame.len() <= 65536,
        message_of::<pb::ApplianceRequest>(frame) == Some(req),
        req.op == 5,
    ensures
        resp.active_root == finalized.active_root,
        committed.active.record matches Record::Committed(c) && resp.active_root == c.next_root@,
{
    lemma_what_a_frame_can_move(committed, finalize, states.first(), finalized);
    lemma_root_stays_until_finalize(states, frames, resps);
    lemma_status_over_the_wire(states.last(), frame, req, after, resp);
}

/// What comes out over the wire is what went in: if a PREPARE, a COMMIT and an EMIT succeed one
/// after the other, the response to the last holds a release of the transition and the challenge of
/// the first, and the receiver that supplied that challenge, holds the parent root and has pinned
/// the anchor accepts it at the counter value that the chip then has.
pub proof fn lemma_emitted_release_is_accepted<T: Tropic, S: WitnessSig>(
    ready: ApplianceView<T, S>,
    frames: Seq<Seq<u8>>,
    reqs: Seq<pb::ApplianceRequestView>,
    resps: Seq<pb::ApplianceResponseView>,
    prepared: ApplianceView<T, S>,
    committed: ApplianceView<T, S>,
    after: ApplianceView<T, S>,
    ctx: VerifierContextView,
)
    requires
        ready.coherent(),
        handle_spec(ready, frames[0], prepared, resps[0]),
        handle_spec(prepared, frames[1], committed, resps[1]),
        handle_spec(committed, frames[2], after, resps[2]),
        forall|i: int|
            #![trigger frames[i]]
            0 <= i < 3 ==> frames[i].len() <= 65536 && message_of::<pb::ApplianceRequest>(
                frames[i],
            ) == Some(reqs[i]) && reqs[i].op == i + 1 && resps[i].ok,
        ctx.accepted_prev_root == ready.active.root@,
        ctx.pinned_anchor_id == ready.anchor_id@,
        ctx.expected_receiver_challenge == reqs[0].receiver_challenge,
        ctx.expected_policy_hash == (reqs[0].transition->0).authority_policy_hash,
        ctx.enrolled_counter == ready.h0,
        ctx.exposure_cap_index > ready.active.u,
        ctx.anchor_uncompromised,
    ensures
        resps[2].release matches Some(m) && (release_of_message(m) matches Ok(rel) && ({
            &&& Some(rel.transition) == reqs[0].transition
            &&& rel.cert.receiver_challenge == reqs[0].receiver_challenge
            &&& accept_spec::<S>(
                rel,
                ctx,
                true,
                true,
                true,
                Some(committed.tropic.counter() as u64),
            ) is Ok
        })),
{
    assert(reqs[0].op == 1 && reqs[1].op == 2 && reqs[2].op == 3) by {
        assert(frames[0].len() <= 65536 && frames[1].len() <= 65536 && frames[2].len() <= 65536);
    }
    let t = reqs[0].transition->0;
    let challenge = reqs[0].receiver_challenge;
    assert(ready.prepare_spec(t, challenge, &prepared, Ok(())));
    assert(prepared.commit_spec(&committed, Ok(())));
    lemma_prepare_keeps_coherence(ready, t, challenge, prepared, Ok(()));
    lemma_commit_then_accept(prepared, committed, Ok(()), ctx);
    lemma_emit_in_full(committed, frames[2], reqs[2], after, resps[2]);
}

} // verus!
