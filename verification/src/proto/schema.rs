//! The schema in numbers: the tag under which each field is written, and what a field that is read
//! does to a message.
use super::message::{
    bytes_field, merged_message, message_field, parsed, varint_field, Message,
};
use super::pb::{
    ApplianceRequest, ApplianceRequestView, ApplianceResponse, ApplianceResponseView,
    CounterEvidence, OfflineRelease, OfflineReleaseView, Op, RootAdvanceCertificate,
    RootAdvanceCertificateView, TransitionPackage,
};
use super::wire::{
    lemma_varint_bound, lemma_varint_bytes_len, varint_bytes, FieldView, ValueView,
};
use crate::root_advance::{CounterEvidenceView, TransitionView};
use vstd::prelude::*;

verus! {

/// The operations are numbered from 1 to 6, and nothing else is one.
pub proof fn lemma_operation_numbers(v: i32)
    ensures
        Op::of_wire(v) is Some <==> 0 <= v <= 6,
        Op::of_wire(v) == Some(Op::Unspecified) <==> v == 0,
        Op::of_wire(v) == Some(Op::Prepare) <==> v == 1,
        Op::of_wire(v) == Some(Op::Commit) <==> v == 2,
        Op::of_wire(v) == Some(Op::Emit) <==> v == 3,
        Op::of_wire(v) == Some(Op::Finalize) <==> v == 4,
        Op::of_wire(v) == Some(Op::Status) <==> v == 5,
        Op::of_wire(v) == Some(Op::Cancel) <==> v == 6,
        Op::of_wire(v) matches Some(op) ==> op.wire() == v,
{
}

/// How a field is written: a number under eight times its tag, unless it is zero; bytes behind
/// their length under eight times the tag and two, unless there are none; a message as its bytes,
/// if it is there.
pub proof fn lemma_field_bytes<M: Message>(tag: u32, v: u64, content: Seq<u8>, inner: M::V)
    ensures
        varint_field(tag, v) == if v == 0 {
            Seq::<u8>::empty()
        } else {
            varint_bytes((8 * tag) as nat) + varint_bytes(v as nat)
        },
        bytes_field(tag, content) == if content.len() == 0 {
            Seq::<u8>::empty()
        } else {
            varint_bytes((8 * tag + 2) as nat) + (varint_bytes(content.len()) + content)
        },
        message_field::<M>(tag, None) == Seq::<u8>::empty(),
        message_field::<M>(tag, Some(inner)) == varint_bytes((8 * tag + 2) as nat) + (varint_bytes(
            M::encoded(inner).len(),
        ) + M::encoded(inner)),
{
}

/// What a nested message is after another occurrence of its field: the fields of the occurrence,
/// merged into what was there before. At the bottom of the nesting none is taken.
pub proof fn lemma_nested_message<M: Message>(m: M::V, content: Seq<u8>, depth: nat)
    ensures
        merged_message::<M>(None, content, depth + 1) == parsed::<M>(M::blank(), content, depth),
        merged_message::<M>(Some(m), content, depth + 1) == parsed::<M>(m, content, depth),
        merged_message::<M>(Some(m), content, 0) is None,
        merged_message::<M>(None, content, 0) is None,
{
}

/// A number that is read into a narrower field keeps its low bits, and a negative number is written
/// as its 64-bit complement.
proof fn lemma_narrowed(v: u64, op: i32)
    ensures
        v as u32 == v % 0x1_0000_0000,
        (v as i32) as int == if v % 0x1_0000_0000 < 0x8000_0000 {
            (v % 0x1_0000_0000) as int
        } else {
            v % 0x1_0000_0000 - 0x1_0000_0000
        },
        (op as u64) as int == if op >= 0 {
            op as int
        } else {
            0x1_0000_0000_0000_0000 + op
        },
{
    assert(v as u32 == v % 0x1_0000_0000) by (bit_vector);
    assert((v as i32) as int == if v % 0x1_0000_0000 < 0x8000_0000 {
        (v % 0x1_0000_0000) as int
    } else {
        v % 0x1_0000_0000 - 0x1_0000_0000
    }) by (bit_vector);
    assert((op as u64) as int == if op >= 0 {
        op as int
    } else {
        0x1_0000_0000_0000_0000 + op
    }) by (bit_vector);
}

/// The tags of a transition package: how it is written, and what a field that is read does to it.
/// An unknown field does nothing, and a known one of another wire type is an error.
pub proof fn lemma_transition_package_schema(m: TransitionView, f: FieldView, depth: nat)
    ensures
        TransitionPackage::encoded(m) == bytes_field(1, m.relationship_id)
            + bytes_field(2, m.object_id)
            + bytes_field(3, m.sender_device_id)
            + bytes_field(4, m.recipient_device_id)
            + bytes_field(5, m.prev_root)
            + bytes_field(6, m.next_root)
            + varint_field(7, m.anchor_counter)
            + varint_field(8, m.next_anchor_counter)
            + varint_field(9, m.action_type as u64)
            + bytes_field(10, m.action_fields)
            + bytes_field(11, m.payload_hash)
            + bytes_field(12, m.old_leaf_proof)
            + bytes_field(13, m.new_leaf_proof)
            + bytes_field(14, m.authority_policy_hash),
        ({
            let read = TransitionPackage::merged(m, f, depth);
            &&& !(1 <= f.tag <= 14) ==> read == Some(m)
            &&& f.value is Other && 1 <= f.tag <= 14 ==> read is None
            &&& f.value is Varint && (f.tag == 1 || f.tag == 2 || f.tag == 3 || f.tag == 4
                || f.tag == 5 || f.tag == 6 || f.tag == 10 || f.tag == 11 || f.tag == 12
                || f.tag == 13 || f.tag == 14) ==> read is None
            &&& f.value is Bytes && (f.tag == 7 || f.tag == 8 || f.tag == 9) ==> read is None
            &&& f.value matches ValueView::Bytes(b) ==> f.tag == 1 ==> read == Some(
                TransitionView { relationship_id: b, ..m },
            )
            &&& f.value matches ValueView::Bytes(b) ==> f.tag == 2 ==> read == Some(
                TransitionView { object_id: b, ..m },
            )
            &&& f.value matches ValueView::Bytes(b) ==> f.tag == 3 ==> read == Some(
                TransitionView { sender_device_id: b, ..m },
            )
            &&& f.value matches ValueView::Bytes(b) ==> f.tag == 4 ==> read == Some(
                TransitionView { recipient_device_id: b, ..m },
            )
            &&& f.value matches ValueView::Bytes(b) ==> f.tag == 5 ==> read == Some(
                TransitionView { prev_root: b, ..m },
            )
            &&& f.value matches ValueView::Bytes(b) ==> f.tag == 6 ==> read == Some(
                TransitionView { next_root: b, ..m },
            )
            &&& f.value matches ValueView::Bytes(b) ==> f.tag == 10 ==> read == Some(
                TransitionView { action_fields: b, ..m },
            )
            &&& f.value matches ValueView::Bytes(b) ==> f.tag == 11 ==> read == Some(
                TransitionView { payload_hash: b, ..m },
            )
            &&& f.value matches ValueView::Bytes(b) ==> f.tag == 12 ==> read == Some(
                TransitionView { old_leaf_proof: b, ..m },
            )
            &&& f.value matches ValueView::Bytes(b) ==> f.tag == 13 ==> read == Some(
                TransitionView { new_leaf_proof: b, ..m },
            )
            &&& f.value matches ValueView::Bytes(b) ==> f.tag == 14 ==> read == Some(
                TransitionView { authority_policy_hash: b, ..m },
            )
            &&& f.value matches ValueView::Varint(v) ==> f.tag == 7 ==> read == Some(
                TransitionView { anchor_counter: v, ..m },
            )
            &&& f.value matches ValueView::Varint(v) ==> f.tag == 8 ==> read == Some(
                TransitionView { next_anchor_counter: v, ..m },
            )
            &&& f.value matches ValueView::Varint(v) ==> f.tag == 9 ==> read == Some(
                TransitionView { action_type: (v % 0x1_0000_0000) as u32, ..m },
            )
        }),
{
    if let ValueView::Varint(v) = f.value {
        lemma_narrowed(v, 0);
    }
}

/// The tags of a root-advance certificate: how it is written, and what a field that is read does to
/// it. An unknown field does nothing, and a known one of another wire type is an error.
pub proof fn lemma_root_advance_certificate_schema(
    m: RootAdvanceCertificateView,
    f: FieldView,
    depth: nat,
)
    ensures
        RootAdvanceCertificate::encoded(m) == bytes_field(1, m.prev_root)
            + bytes_field(2, m.next_root)
            + varint_field(3, m.anchor_counter)
            + varint_field(4, m.next_anchor_counter)
            + bytes_field(5, m.transition_digest)
            + bytes_field(6, m.witness_input)
            + bytes_field(7, m.pk_hash)
            + bytes_field(8, m.pk_hw)
            + bytes_field(9, m.sigma)
            + bytes_field(10, m.anchor_id)
            + varint_field(11, m.slot as u64)
            + bytes_field(12, m.receiver_challenge),
        ({
            let read = RootAdvanceCertificate::merged(m, f, depth);
            &&& !(1 <= f.tag <= 12) ==> read == Some(m)
            &&& f.value is Other && 1 <= f.tag <= 12 ==> read is None
            &&& f.value is Varint && (f.tag == 1 || f.tag == 2 || f.tag == 5 || f.tag == 6
                || f.tag == 7 || f.tag == 8 || f.tag == 9 || f.tag == 10 || f.tag == 12)
                ==> read is None
            &&& f.value is Bytes && (f.tag == 3 || f.tag == 4 || f.tag == 11) ==> read is None
            &&& f.value matches ValueView::Bytes(b) ==> f.tag == 1 ==> read == Some(
                RootAdvanceCertificateView { prev_root: b, ..m },
            )
            &&& f.value matches ValueView::Bytes(b) ==> f.tag == 2 ==> read == Some(
                RootAdvanceCertificateView { next_root: b, ..m },
            )
            &&& f.value matches ValueView::Bytes(b) ==> f.tag == 5 ==> read == Some(
                RootAdvanceCertificateView { transition_digest: b, ..m },
            )
            &&& f.value matches ValueView::Bytes(b) ==> f.tag == 6 ==> read == Some(
                RootAdvanceCertificateView { witness_input: b, ..m },
            )
            &&& f.value matches ValueView::Bytes(b) ==> f.tag == 7 ==> read == Some(
                RootAdvanceCertificateView { pk_hash: b, ..m },
            )
            &&& f.value matches ValueView::Bytes(b) ==> f.tag == 8 ==> read == Some(
                RootAdvanceCertificateView { pk_hw: b, ..m },
            )
            &&& f.value matches ValueView::Bytes(b) ==> f.tag == 9 ==> read == Some(
                RootAdvanceCertificateView { sigma: b, ..m },
            )
            &&& f.value matches ValueView::Bytes(b) ==> f.tag == 10 ==> read == Some(
                RootAdvanceCertificateView { anchor_id: b, ..m },
            )
            &&& f.value matches ValueView::Bytes(b) ==> f.tag == 12 ==> read == Some(
                RootAdvanceCertificateView { receiver_challenge: b, ..m },
            )
            &&& f.value matches ValueView::Varint(v) ==> f.tag == 3 ==> read == Some(
                RootAdvanceCertificateView { anchor_counter: v, ..m },
            )
            &&& f.value matches ValueView::Varint(v) ==> f.tag == 4 ==> read == Some(
                RootAdvanceCertificateView { next_anchor_counter: v, ..m },
            )
            &&& f.value matches ValueView::Varint(v) ==> f.tag == 11 ==> read == Some(
                RootAdvanceCertificateView { slot: (v % 0x1_0000_0000) as u32, ..m },
            )
        }),
{
    if let ValueView::Varint(v) = f.value {
        lemma_narrowed(v, 0);
    }
}

/// The tags of counter evidence: how it is written, and what a field that is read does to it. An
/// unknown field does nothing, and a known one of another wire type is an error.
pub proof fn lemma_counter_evidence_schema(m: CounterEvidenceView, f: FieldView, depth: nat)
    ensures
        CounterEvidence::encoded(m) == bytes_field(1, m.anchor_id)
            + varint_field(2, m.enrolled_counter)
            + varint_field(3, m.live_counter_claim)
            + varint_field(4, m.derived_index_claim)
            + bytes_field(5, m.verifier_transcript),
        ({
            let read = CounterEvidence::merged(m, f, depth);
            &&& !(1 <= f.tag <= 5) ==> read == Some(m)
            &&& f.value is Other && 1 <= f.tag <= 5 ==> read is None
            &&& f.value is Varint && (f.tag == 1 || f.tag == 5) ==> read is None
            &&& f.value is Bytes && (f.tag == 2 || f.tag == 3 || f.tag == 4) ==> read is None
            &&& f.value matches ValueView::Bytes(b) ==> f.tag == 1 ==> read == Some(
                CounterEvidenceView { anchor_id: b, ..m },
            )
            &&& f.value matches ValueView::Bytes(b) ==> f.tag == 5 ==> read == Some(
                CounterEvidenceView { verifier_transcript: b, ..m },
            )
            &&& f.value matches ValueView::Varint(v) ==> f.tag == 2 ==> read == Some(
                CounterEvidenceView { enrolled_counter: v, ..m },
            )
            &&& f.value matches ValueView::Varint(v) ==> f.tag == 3 ==> read == Some(
                CounterEvidenceView { live_counter_claim: v, ..m },
            )
            &&& f.value matches ValueView::Varint(v) ==> f.tag == 4 ==> read == Some(
                CounterEvidenceView { derived_index_claim: v, ..m },
            )
        }),
{
}

/// The tags of a release: how it is written, and what a field that is read does to it. An unknown
/// field does nothing, and a known one of another wire type is an error.
pub proof fn lemma_offline_release_schema(m: OfflineReleaseView, f: FieldView, depth: nat)
    ensures
        OfflineRelease::encoded(m) == message_field::<TransitionPackage>(1, m.transition)
            + message_field::<RootAdvanceCertificate>(2, m.cert)
            + message_field::<CounterEvidence>(3, m.counter),
        ({
            let read = OfflineRelease::merged(m, f, depth);
            &&& !(1 <= f.tag <= 3) ==> read == Some(m)
            &&& f.value is Other && 1 <= f.tag <= 3 ==> read is None
            &&& f.value is Varint && (f.tag == 1 || f.tag == 2 || f.tag == 3) ==> read is None
            &&& f.value matches ValueView::Bytes(b) ==> f.tag == 1 ==> match merged_message::<
                TransitionPackage,
            >(m.transition, b, depth) {
                Some(inner) => read == Some(OfflineReleaseView { transition: Some(inner), ..m }),
                None => read is None,
            }
            &&& f.value matches ValueView::Bytes(b) ==> f.tag == 2 ==> match merged_message::<
                RootAdvanceCertificate,
            >(m.cert, b, depth) {
                Some(inner) => read == Some(OfflineReleaseView { cert: Some(inner), ..m }),
                None => read is None,
            }
            &&& f.value matches ValueView::Bytes(b) ==> f.tag == 3 ==> match merged_message::<
                CounterEvidence,
            >(m.counter, b, depth) {
                Some(inner) => read == Some(OfflineReleaseView { counter: Some(inner), ..m }),
                None => read is None,
            }
        }),
{
}

/// The tags of a request: how it is written, and what a field that is read does to it. An unknown
/// field does nothing, and a known one of another wire type is an error.
pub proof fn lemma_appliance_request_schema(m: ApplianceRequestView, f: FieldView, depth: nat)
    ensures
        ApplianceRequest::encoded(m) == varint_field(1, if m.op >= 0 {
            m.op as u64
        } else {
            (0x1_0000_0000_0000_0000 + m.op) as u64
        })
            + message_field::<TransitionPackage>(2, m.transition)
            + bytes_field(3, m.receiver_challenge),
        ({
            let read = ApplianceRequest::merged(m, f, depth);
            &&& !(1 <= f.tag <= 3) ==> read == Some(m)
            &&& f.value is Other && 1 <= f.tag <= 3 ==> read is None
            &&& f.value is Varint && (f.tag == 2 || f.tag == 3) ==> read is None
            &&& f.value is Bytes && (f.tag == 1) ==> read is None
            &&& f.value matches ValueView::Bytes(b) ==> f.tag == 2 ==> match merged_message::<
                TransitionPackage,
            >(m.transition, b, depth) {
                Some(inner) => read == Some(ApplianceRequestView { transition: Some(inner), ..m }),
                None => read is None,
            }
            &&& f.value matches ValueView::Bytes(b) ==> f.tag == 3 ==> read == Some(
                ApplianceRequestView { receiver_challenge: b, ..m },
            )
            &&& f.value matches ValueView::Varint(v) ==> f.tag == 1 ==> (read matches Some(n)
                && n == (ApplianceRequestView { op: n.op, ..m }) && n.op == if v % 0x1_0000_0000
                < 0x8000_0000 {
                (v % 0x1_0000_0000) as int
            } else {
                v % 0x1_0000_0000 - 0x1_0000_0000
            })
        }),
{
    if let ValueView::Varint(v) = f.value {
        lemma_narrowed(v, m.op);
    }
    lemma_narrowed(0, m.op);
}

/// The tags of a response: how it is written, and what a field that is read does to it. An unknown
/// field does nothing, and a known one of another wire type is an error.
pub proof fn lemma_appliance_response_schema(m: ApplianceResponseView, f: FieldView, depth: nat)
    ensures
        ApplianceResponse::encoded(m) == varint_field(1, if m.op >= 0 {
            m.op as u64
        } else {
            (0x1_0000_0000_0000_0000 + m.op) as u64
        })
            + varint_field(2, if m.ok {
            1
        } else {
            0
        })
            + varint_field(3, m.error as u64)
            + message_field::<OfflineRelease>(4, m.release)
            + bytes_field(5, m.active_root)
            + varint_field(6, m.active_index)
            + varint_field(7, m.status as u64),
        ({
            let read = ApplianceResponse::merged(m, f, depth);
            &&& !(1 <= f.tag <= 7) ==> read == Some(m)
            &&& f.value is Other && 1 <= f.tag <= 7 ==> read is None
            &&& f.value is Varint && (f.tag == 4 || f.tag == 5) ==> read is None
            &&& f.value is Bytes && (f.tag == 1 || f.tag == 2 || f.tag == 3 || f.tag == 6
                || f.tag == 7) ==> read is None
            &&& f.value matches ValueView::Bytes(b) ==> f.tag == 4 ==> match merged_message::<
                OfflineRelease,
            >(m.release, b, depth) {
                Some(inner) => read == Some(ApplianceResponseView { release: Some(inner), ..m }),
                None => read is None,
            }
            &&& f.value matches ValueView::Bytes(b) ==> f.tag == 5 ==> read == Some(
                ApplianceResponseView { active_root: b, ..m },
            )
            &&& f.value matches ValueView::Varint(v) ==> f.tag == 1 ==> (read matches Some(n)
                && n == (ApplianceResponseView { op: n.op, ..m }) && n.op == if v % 0x1_0000_0000
                < 0x8000_0000 {
                (v % 0x1_0000_0000) as int
            } else {
                v % 0x1_0000_0000 - 0x1_0000_0000
            })
            &&& f.value matches ValueView::Varint(v) ==> f.tag == 2 ==> read == Some(
                ApplianceResponseView { ok: v != 0, ..m },
            )
            &&& f.value matches ValueView::Varint(v) ==> f.tag == 3 ==> read == Some(
                ApplianceResponseView { error: (v % 0x1_0000_0000) as u32, ..m },
            )
            &&& f.value matches ValueView::Varint(v) ==> f.tag == 6 ==> read == Some(
                ApplianceResponseView { active_index: v, ..m },
            )
            &&& f.value matches ValueView::Varint(v) ==> f.tag == 7 ==> read == Some(
                ApplianceResponseView { status: (v % 0x1_0000_0000) as u32, ..m },
            )
        }),
{
    if let ValueView::Varint(v) = f.value {
        lemma_narrowed(v, m.op);
    }
    lemma_narrowed(0, m.op);
}

/// A response without a release is short.
pub proof fn lemma_plain_response_is_short(m: ApplianceResponseView)
    requires
        m.release is None,
        m.active_root.len() <= 32,
    ensures
        ApplianceResponse::encoded(m).len() <= 152,
{
    lemma_varint_bound();
    let ok: u64 = if m.ok {
        1
    } else {
        0
    };
    assert forall|tag: u32, v: u64| tag <= 7 implies #[trigger] varint_field(tag, v).len()
        <= 20 by {
        lemma_varint_bytes_len((8 * tag) as nat, 0);
        lemma_varint_bytes_len(v as nat, 0);
    }
    lemma_varint_bytes_len(42, 0);
    lemma_varint_bytes_len(m.active_root.len(), 0);
    assert(varint_field(1, m.op as u64).len() <= 20);
    assert(varint_field(2, ok).len() <= 20);
    assert(varint_field(3, m.error as u64).len() <= 20);
    assert(varint_field(6, m.active_index).len() <= 20);
    assert(varint_field(7, m.status as u64).len() <= 20);
    assert(bytes_field(5, m.active_root).len() <= 52);
}

} // verus!
