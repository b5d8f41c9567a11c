//! The wire protocol: the messages, their bytes, and their conversion to and from the objects of a
//! root advance.
pub mod message;
pub mod pb;
pub mod schema;
pub mod wire;

use crate::root_advance::{
    Certificate, CertificateView, CounterEvidence, OfflineRelease, OfflineReleaseView,
    OwnedTransition,
};
use crate::util::to_array_32;
use self::message::{merge_all, parsed, Message};
use self::wire::RECURSION_LIMIT;
use vstd::prelude::*;
use vstd::slice::slice_to_vec;

verus! {

/// Why bytes or a message were rejected.
#[derive(Clone, Copy, PartialEq, Eq, Debug, Structural)]
pub enum ProtoError {
    /// The bytes are not a message.
    Decode,
    /// A message that must be there is not.
    MissingField,
    /// A fixed-width field has another width.
    BadLength,
    /// A number is out of its range.
    OutOfRange,
    /// The operation is not one of the schema.
    BadOp,
}

/// The message that `bytes` hold, if they hold one.
pub open spec fn message_of<M: Message>(bytes: Seq<u8>) -> Option<M::V> {
    parsed::<M>(M::blank(), bytes, RECURSION_LIMIT as nat)
}

fn decode<M: Message>(bytes: &[u8]) -> (decoded: Result<M, ProtoError>)
    ensures
        match message_of::<M>(bytes@) {
            Some(m) => decoded matches Ok(d) && d@ == m,
            None => decoded == Err::<M, ProtoError>(ProtoError::Decode),
        },
{
    match merge_all(M::empty(), bytes, RECURSION_LIMIT) {
        Some(m) => Ok(m),
        None => Err(ProtoError::Decode),
    }
}

/// The request that `bytes` hold.
pub fn decode_request(bytes: &[u8]) -> (decoded: Result<pb::ApplianceRequest, ProtoError>)
    ensures
        match message_of::<pb::ApplianceRequest>(bytes@) {
            Some(m) => decoded matches Ok(req) && req@ == m,
            None => decoded == Err::<pb::ApplianceRequest, ProtoError>(ProtoError::Decode),
        },
{
    decode(bytes)
}

/// The bytes of a request.
pub fn encode_request(req: &pb::ApplianceRequest) -> (bytes: Vec<u8>)
    ensures
        bytes@ == pb::ApplianceRequest::encoded(req@),
{
    req.encode()
}

/// The response that `bytes` hold.
pub fn decode_response(bytes: &[u8]) -> (decoded: Result<pb::ApplianceResponse, ProtoError>)
    ensures
        match message_of::<pb::ApplianceResponse>(bytes@) {
            Some(m) => decoded matches Ok(resp) && resp@ == m,
            None => decoded == Err::<pb::ApplianceResponse, ProtoError>(ProtoError::Decode),
        },
{
    decode(bytes)
}

/// The bytes of a response.
pub fn encode_response(resp: &pb::ApplianceResponse) -> (bytes: Vec<u8>)
    ensures
        bytes@ == pb::ApplianceResponse::encoded(resp@),
{
    resp.encode()
}

/// A request that is sent is received as the same request.
pub proof fn lemma_request_round_trip(req: pb::ApplianceRequestView)
    requires
        pb::ApplianceRequest::encoded(req).len() <= u64::MAX,
    ensures
        message_of::<pb::ApplianceRequest>(pb::ApplianceRequest::encoded(req)) == Some(req),
{
    pb::lemma_appliance_request_round_trip(req, RECURSION_LIMIT as nat);
}

/// A response that is sent is received as the same response.
pub proof fn lemma_response_round_trip(resp: pb::ApplianceResponseView)
    requires
        pb::ApplianceResponse::encoded(resp).len() <= u64::MAX,
    ensures
        message_of::<pb::ApplianceResponse>(pb::ApplianceResponse::encoded(resp)) == Some(resp),
{
    pb::lemma_appliance_response_round_trip(resp, RECURSION_LIMIT as nat);
}

/// A field that must have 32 bytes.
pub fn arr32(b: &[u8]) -> (a: Result<[u8; 32], ProtoError>)
    ensures
        if b@.len() == 32 {
            a matches Ok(array) && array@ == b@
        } else {
            a == Err::<[u8; 32], ProtoError>(ProtoError::BadLength)
        },
{
    if b.len() == 32 {
        Ok(to_array_32(b))
    } else {
        Err(ProtoError::BadLength)
    }
}

/// The fixed-width fields of a certificate have 32 bytes each.
pub open spec fn certificate_shaped(c: pb::RootAdvanceCertificateView) -> bool {
    &&& c.prev_root.len() == 32
    &&& c.next_root.len() == 32
    &&& c.transition_digest.len() == 32
    &&& c.witness_input.len() == 32
    &&& c.pk_hash.len() == 32
    &&& c.anchor_id.len() == 32
    &&& c.receiver_challenge.len() == 32
}

/// A certificate as it is sent.
pub open spec fn certificate_message(c: CertificateView) -> pb::RootAdvanceCertificateView {
    pb::RootAdvanceCertificateView {
        prev_root: c.prev_root,
        next_root: c.next_root,
        anchor_counter: c.anchor_counter,
        next_anchor_counter: c.next_anchor_counter,
        transition_digest: c.transition_digest,
        witness_input: c.witness_input,
        pk_hash: c.pk_hash,
        pk_hw: c.pk_hw,
        sigma: c.sigma,
        anchor_id: c.anchor_id,
        slot: c.slot as u32,
        receiver_challenge: c.receiver_challenge,
    }
}

/// A release as it is sent.
pub open spec fn release_message(rel: OfflineReleaseView) -> pb::OfflineReleaseView {
    pb::OfflineReleaseView {
        transition: Some(rel.transition),
        cert: Some(certificate_message(rel.cert)),
        counter: Some(rel.counter),
    }
}

/// The certificate that a message stands for.
pub open spec fn certificate_of(c: pb::RootAdvanceCertificateView) -> CertificateView {
    CertificateView {
        prev_root: c.prev_root,
        next_root: c.next_root,
        anchor_counter: c.anchor_counter,
        next_anchor_counter: c.next_anchor_counter,
        transition_digest: c.transition_digest,
        witness_input: c.witness_input,
        pk_hash: c.pk_hash,
        pk_hw: c.pk_hw,
        sigma: c.sigma,
        anchor_id: c.anchor_id,
        slot: c.slot as u16,
        receiver_challenge: c.receiver_challenge,
    }
}

/// The release that a message stands for: all three parts must be there, the fixed-width fields
/// must have their width, and the slot must be one.
pub open spec fn release_of_message(m: pb::OfflineReleaseView) -> Result<
    OfflineReleaseView,
    ProtoError,
> {
    match (m.transition, m.cert, m.counter) {
        (Some(t), Some(c), Some(ev)) => if !t.shaped() || !certificate_shaped(c)
            || ev.anchor_id.len() != 32 {
            Err(ProtoError::BadLength)
        } else if c.slot > u16::MAX {
            Err(ProtoError::OutOfRange)
        } else {
            Ok(OfflineReleaseView { transition: t, cert: certificate_of(c), counter: ev })
        },
        _ => Err(ProtoError::MissingField),
    }
}

/// A release survives its conversion: the message that is sent for it stands for it again.
pub proof fn lemma_release_conversion(rel: OfflineRelease)
    ensures
        release_of_message(release_message(rel@)) == Ok::<OfflineReleaseView, ProtoError>(rel@),
{
}

impl OwnedTransition {
    /// The package as it is sent.
    pub fn to_pb(&self) -> (m: pb::TransitionPackage)
        ensures
            m@ == self@,
    {
        pb::TransitionPackage {
            relationship_id: slice_to_vec(self.relationship_id.as_slice()),
            object_id: slice_to_vec(self.object_id.as_slice()),
            sender_device_id: slice_to_vec(self.sender_device_id.as_slice()),
            recipient_device_id: slice_to_vec(self.recipient_device_id.as_slice()),
            prev_root: slice_to_vec(self.prev_root.as_slice()),
            next_root: slice_to_vec(self.next_root.as_slice()),
            anchor_counter: self.anchor_counter,
            next_anchor_counter: self.next_anchor_counter,
            action_type: self.action_type,
            action_fields: slice_to_vec(self.action_fields.as_slice()),
            payload_hash: slice_to_vec(self.payload_hash.as_slice()),
            old_leaf_proof: slice_to_vec(self.old_leaf_proof.as_slice()),
            new_leaf_proof: slice_to_vec(self.new_leaf_proof.as_slice()),
            authority_policy_hash: slice_to_vec(self.authority_policy_hash.as_slice()),
        }
    }
}

impl Certificate {
    /// The certificate as it is sent.
    pub fn to_pb(&self) -> (m: pb::RootAdvanceCertificate)
        ensures
            m@ == certificate_message(self@),
    {
        pb::RootAdvanceCertificate {
            prev_root: slice_to_vec(self.prev_root.as_slice()),
            next_root: slice_to_vec(self.next_root.as_slice()),
            anchor_counter: self.anchor_counter,
            next_anchor_counter: self.next_anchor_counter,
            transition_digest: slice_to_vec(self.transition_digest.as_slice()),
            witness_input: slice_to_vec(self.witness_input.as_slice()),
            pk_hash: slice_to_vec(self.pk_hash.as_slice()),
            pk_hw: slice_to_vec(self.pk_hw.as_slice()),
            sigma: slice_to_vec(self.sigma.as_slice()),
            anchor_id: slice_to_vec(self.anchor_id.as_slice()),
            slot: self.slot as u32,
            receiver_challenge: slice_to_vec(self.receiver_challenge.as_slice()),
        }
    }
}

impl CounterEvidence {
    /// The evidence as it is sent.
    pub fn to_pb(&self) -> (m: pb::CounterEvidence)
        ensures
            m@ == self@,
    {
        pb::CounterEvidence {
            anchor_id: slice_to_vec(self.anchor_id.as_slice()),
            enrolled_counter: self.enrolled_counter,
            live_counter_claim: self.live_counter_claim,
            derived_index_claim: self.derived_index_claim,
            verifier_transcript: slice_to_vec(self.verifier_transcript.as_slice()),
        }
    }
}

impl OfflineRelease {
    /// The release as it is sent.
    pub fn to_pb(&self) -> (m: pb::OfflineRelease)
        ensures
            m@ == release_message(self@),
    {
        pb::OfflineRelease {
            transition: Some(self.transition.to_pb()),
            cert: Some(self.cert.to_pb()),
            counter: Some(self.counter.to_pb()),
        }
    }
}

impl pb::TransitionPackage {
    /// The package that the message stands for: its fixed-width fields must have 32 bytes.
    pub fn to_owned_transition(&self) -> (t: Result<OwnedTransition, ProtoError>)
        ensures
            if self@.shaped() {
                t matches Ok(owned) && owned@ == self@
            } else {
                t == Err::<OwnedTransition, ProtoError>(ProtoError::BadLength)
            },
    {
        if self.relationship_id.len() != 32
            || self.object_id.len() != 32
            || self.sender_device_id.len() != 32
            || self.recipient_device_id.len() != 32
            || self.prev_root.len() != 32
            || self.next_root.len() != 32
            || self.payload_hash.len() != 32
            || self.authority_policy_hash.len() != 32
        {
            return Err(ProtoError::BadLength);
        }
        let owned: OwnedTransition = OwnedTransition {
            relationship_id: to_array_32(self.relationship_id.as_slice()),
            object_id: to_array_32(self.object_id.as_slice()),
            sender_device_id: to_array_32(self.sender_device_id.as_slice()),
            recipient_device_id: to_array_32(self.recipient_device_id.as_slice()),
            prev_root: to_array_32(self.prev_root.as_slice()),
            next_root: to_array_32(self.next_root.as_slice()),
            anchor_counter: self.anchor_counter,
            next_anchor_counter: self.next_anchor_counter,
            action_type: self.action_type,
            action_fields: slice_to_vec(self.action_fields.as_slice()),
            payload_hash: to_array_32(self.payload_hash.as_slice()),
            old_leaf_proof: slice_to_vec(self.old_leaf_proof.as_slice()),
            new_leaf_proof: slice_to_vec(self.new_leaf_proof.as_slice()),
            authority_policy_hash: to_array_32(self.authority_policy_hash.as_slice()),
        };
        assert(owned@ =~= self@);
        Ok(owned)
    }
}

impl pb::RootAdvanceCertificate {
    /// The certificate that the message stands for: its fixed-width fields must have 32 bytes, and
    /// its slot must be one.
    pub fn to_certificate(&self) -> (c: Result<Certificate, ProtoError>)
        ensures
            if !certificate_shaped(self@) {
                c == Err::<Certificate, ProtoError>(ProtoError::BadLength)
            } else if self.slot > u16::MAX {
                c == Err::<Certificate, ProtoError>(ProtoError::OutOfRange)
            } else {
                c matches Ok(cert) && cert@ == certificate_of(self@)
            },
    {
        if self.prev_root.len() != 32
            || self.next_root.len() != 32
            || self.transition_digest.len() != 32
            || self.witness_input.len() != 32
            || self.pk_hash.len() != 32
            || self.anchor_id.len() != 32
            || self.receiver_challenge.len() != 32
        {
            return Err(ProtoError::BadLength);
        }
        if self.slot > u16::MAX as u32 {
            return Err(ProtoError::OutOfRange);
        }
        let cert: Certificate = Certificate {
            prev_root: to_array_32(self.prev_root.as_slice()),
            next_root: to_array_32(self.next_root.as_slice()),
            anchor_counter: self.anchor_counter,
            next_anchor_counter: self.next_anchor_counter,
            transition_digest: to_array_32(self.transition_digest.as_slice()),
            witness_input: to_array_32(self.witness_input.as_slice()),
            pk_hash: to_array_32(self.pk_hash.as_slice()),
            pk_hw: slice_to_vec(self.pk_hw.as_slice()),
            sigma: slice_to_vec(self.sigma.as_slice()),
            anchor_id: to_array_32(self.anchor_id.as_slice()),
            slot: self.slot as u16,
            receiver_challenge: to_array_32(self.receiver_challenge.as_slice()),
        };
        assert(cert@ =~= certificate_of(self@));
        Ok(cert)
    }
}

impl pb::CounterEvidence {
    /// The evidence that the message stands for: its anchor must have 32 bytes.
    pub fn to_evidence(&self) -> (ev: Result<CounterEvidence, ProtoError>)
        ensures
            if self@.anchor_id.len() == 32 {
                ev matches Ok(evidence) && evidence@ == self@
            } else {
                ev == Err::<CounterEvidence, ProtoError>(ProtoError::BadLength)
            },
    {
        if self.anchor_id.len() != 32 {
            return Err(ProtoError::BadLength);
        }
        let evidence: CounterEvidence = CounterEvidence {
            anchor_id: to_array_32(self.anchor_id.as_slice()),
            enrolled_counter: self.enrolled_counter,
            live_counter_claim: self.live_counter_claim,
            derived_index_claim: self.derived_index_claim,
            verifier_transcript: slice_to_vec(self.verifier_transcript.as_slice()),
        };
        assert(evidence@ =~= self@);
        Ok(evidence)
    }
}

impl pb::OfflineRelease {
    /// The release that the message stands for.
    pub fn to_release(&self) -> (rel: Result<OfflineRelease, ProtoError>)
        ensures
            match release_of_message(self@) {
                Ok(v) => rel matches Ok(r) && r@ == v,
                Err(e) => rel == Err::<OfflineRelease, ProtoError>(e),
            },
    {
        let (t, c, ev) = match (&self.transition, &self.cert, &self.counter) {
            (Some(t), Some(c), Some(ev)) => (t, c, ev),
            _ => {
                return Err(ProtoError::MissingField);
            },
        };
        // A wrong width anywhere outranks a slot out of range.
        match (t.to_owned_transition(), c.to_certificate(), ev.to_evidence()) {
            (Ok(transition), Ok(cert), Ok(counter)) => Ok(
                OfflineRelease { transition, cert, counter },
            ),
            (Ok(_), Err(e), Ok(_)) => Err(e),
            _ => Err(ProtoError::BadLength),
        }
    }
}

/// Messages are read with up to 100 levels of nesting.
pub proof fn lemma_message_is_read_whole<M: Message>(bytes: Seq<u8>)
    ensures
        message_of::<M>(bytes) == parsed::<M>(M::blank(), bytes, 100),
{
}

/// A release is sent field by field under the same names.
pub proof fn lemma_release_message_in_full(rel: OfflineReleaseView)
    ensures
        ({
            let m = release_message(rel);
            &&& m.transition == Some(rel.transition)
            &&& m.counter == Some(rel.counter)
            &&& m.cert matches Some(c) && ({
                &&& c.prev_root == rel.cert.prev_root
                &&& c.next_root == rel.cert.next_root
                &&& c.anchor_counter == rel.cert.anchor_counter
                &&& c.next_anchor_counter == rel.cert.next_anchor_counter
                &&& c.transition_digest == rel.cert.transition_digest
                &&& c.witness_input == rel.cert.witness_input
                &&& c.pk_hash == rel.cert.pk_hash
                &&& c.pk_hw == rel.cert.pk_hw
                &&& c.sigma == rel.cert.sigma
                &&& c.anchor_id == rel.cert.anchor_id
                &&& c.slot == rel.cert.slot
                &&& c.receiver_challenge == rel.cert.receiver_challenge
            })
        }),
{
}

/// What a received release message is taken for. It needs all three parts, then 32 bytes in each
/// fixed-width field, then a slot of 16 bits; a message that has all that stands for the release
/// that is sent as just this message.
pub proof fn lemma_received_release_in_full(m: pb::OfflineReleaseView)
    ensures
        ({
            let t = m.transition->0;
            let c = m.cert->0;
            let ev = m.counter->0;
            let complete = m.transition is Some && m.cert is Some && m.counter is Some;
            let wide = t.relationship_id.len() == 32 && t.object_id.len() == 32
                && t.sender_device_id.len() == 32 && t.recipient_device_id.len() == 32
                && t.prev_root.len() == 32 && t.next_root.len() == 32 && t.payload_hash.len() == 32
                && t.authority_policy_hash.len() == 32 && c.prev_root.len() == 32
                && c.next_root.len() == 32 && c.transition_digest.len() == 32
                && c.witness_input.len() == 32 && c.pk_hash.len() == 32 && c.anchor_id.len() == 32
                && c.receiver_challenge.len() == 32 && ev.anchor_id.len() == 32;
            let read = release_of_message(m);
            &&& read == Err::<OfflineReleaseView, ProtoError>(ProtoError::MissingField)
                <==> !complete
            &&& read == Err::<OfflineReleaseView, ProtoError>(ProtoError::BadLength) <==> complete
                && !wide
            &&& read == Err::<OfflineReleaseView, ProtoError>(ProtoError::OutOfRange)
                <==> complete && wide && c.slot > 65535
            &&& read is Ok <==> complete && wide && c.slot <= 65535
            &&& read matches Ok(rel) ==> release_message(rel) == m
        }),
{
    if let Ok(rel) = release_of_message(m) {
        assert(release_message(rel) =~= m);
        assert(certificate_message(rel.cert) =~= m.cert->0);
    }
}

/// The same of a certificate alone.
pub proof fn lemma_certificate_conversion(c: CertificateView, m: pb::RootAdvanceCertificateView)
    ensures
        certificate_of(certificate_message(c)) == c,
        m.slot <= 65535 ==> certificate_message(certificate_of(m)) == m,
        certificate_shaped(m) <==> m.prev_root.len() == 32 && m.next_root.len() == 32
            && m.transition_digest.len() == 32 && m.witness_input.len() == 32 && m.pk_hash.len()
            == 32 && m.anchor_id.len() == 32 && m.receiver_challenge.len() == 32,
{
    assert(certificate_of(certificate_message(c)) =~= c);
    if m.slot <= 65535 {
        assert(certificate_message(certificate_of(m)) =~= m);
    }
}

} // verus!
