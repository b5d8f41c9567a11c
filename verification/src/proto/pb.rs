//! The messages of the wire protocol.
//!
//! Each type is one message of the schema. The tags of its fields count up from one, in the order
//! of the fields.
use super::message::{
    bytes_field, lemma_reads_bytes, lemma_reads_message, lemma_reads_nothing, lemma_reads_varint,
    lemma_reads_whole, merge_message, merged_message, message_field, parsed, push_bytes,
    push_message, push_varint, varint_field, view_of, Message,
};
use super::wire::{Field, FieldView, Value, ValueView};
use super::ProtoError;
use crate::root_advance::{CounterEvidenceView, TransitionView};
use vstd::prelude::*;
use vstd::slice::slice_to_vec;

verus! {

/// What a request asks for.
#[derive(Clone, Copy, PartialEq, Eq, Debug, Structural)]
pub enum Op {
    Unspecified,
    Prepare,
    Commit,
    Emit,
    Finalize,
    Status,
    Cancel,
}

impl Op {
    /// The operation that a number on the wire stands for.
    pub open spec fn of_wire(v: i32) -> Option<Op> {
        if v == 0 {
            Some(Op::Unspecified)
        } else if v == 1 {
            Some(Op::Prepare)
        } else if v == 2 {
            Some(Op::Commit)
        } else if v == 3 {
            Some(Op::Emit)
        } else if v == 4 {
            Some(Op::Finalize)
        } else if v == 5 {
            Some(Op::Status)
        } else if v == 6 {
            Some(Op::Cancel)
        } else {
            None
        }
    }

    /// The number of the operation on the wire.
    pub open spec fn wire(self) -> i32 {
        match self {
            Op::Unspecified => 0,
            Op::Prepare => 1,
            Op::Commit => 2,
            Op::Emit => 3,
            Op::Finalize => 4,
            Op::Status => 5,
            Op::Cancel => 6,
        }
    }

    /// The number of the operation on the wire.
    pub fn to_wire(self) -> (v: i32)
        ensures
            v == self.wire(),
            Op::of_wire(v) == Some(self),
    {
        match self {
            Op::Unspecified => 0,
            Op::Prepare => 1,
            Op::Commit => 2,
            Op::Emit => 3,
            Op::Finalize => 4,
            Op::Status => 5,
            Op::Cancel => 6,
        }
    }

    /// The operation that a number on the wire stands for, if it stands for one.
    pub fn try_from(v: i32) -> (op: Result<Op, ProtoError>)
        ensures
            op == (match Op::of_wire(v) {
                Some(op) => Ok::<Op, ProtoError>(op),
                None => Err(ProtoError::BadOp),
            }),
    {
        match v {
            0 => Ok(Op::Unspecified),
            1 => Ok(Op::Prepare),
            2 => Ok(Op::Commit),
            3 => Ok(Op::Emit),
            4 => Ok(Op::Finalize),
            5 => Ok(Op::Status),
            6 => Ok(Op::Cancel),
            _ => Err(ProtoError::BadOp),
        }
    }
}

/// A truth value as a number.
pub open spec fn bool_bits(b: bool) -> u64 {
    if b {
        1
    } else {
        0
    }
}

/// A transition package, as it is sent.
#[derive(Clone, Debug, PartialEq)]
pub struct TransitionPackage {
    pub relationship_id: Vec<u8>,
    pub object_id: Vec<u8>,
    pub sender_device_id: Vec<u8>,
    pub recipient_device_id: Vec<u8>,
    pub prev_root: Vec<u8>,
    pub next_root: Vec<u8>,
    pub anchor_counter: u64,
    pub next_anchor_counter: u64,
    pub action_type: u32,
    pub action_fields: Vec<u8>,
    pub payload_hash: Vec<u8>,
    pub old_leaf_proof: Vec<u8>,
    pub new_leaf_proof: Vec<u8>,
    pub authority_policy_hash: Vec<u8>,
}

impl View for TransitionPackage {
    type V = TransitionView;

    open spec fn view(&self) -> TransitionView {
        TransitionView {
            relationship_id: self.relationship_id@,
            object_id: self.object_id@,
            sender_device_id: self.sender_device_id@,
            recipient_device_id: self.recipient_device_id@,
            prev_root: self.prev_root@,
            next_root: self.next_root@,
            anchor_counter: self.anchor_counter,
            next_anchor_counter: self.next_anchor_counter,
            action_type: self.action_type,
            action_fields: self.action_fields@,
            payload_hash: self.payload_hash@,
            old_leaf_proof: self.old_leaf_proof@,
            new_leaf_proof: self.new_leaf_proof@,
            authority_policy_hash: self.authority_policy_hash@,
        }
    }
}

impl Default for TransitionPackage {
    /// The message without any field.
    fn default() -> (m: Self)
        ensures
            m@ == TransitionPackage::blank(),
    {
        TransitionPackage::empty()
    }
}

impl Message for TransitionPackage {
    open spec fn blank() -> TransitionView {
        TransitionView {
            relationship_id: Seq::empty(),
            object_id: Seq::empty(),
            sender_device_id: Seq::empty(),
            recipient_device_id: Seq::empty(),
            prev_root: Seq::empty(),
            next_root: Seq::empty(),
            anchor_counter: 0,
            next_anchor_counter: 0,
            action_type: 0,
            action_fields: Seq::empty(),
            payload_hash: Seq::empty(),
            old_leaf_proof: Seq::empty(),
            new_leaf_proof: Seq::empty(),
            authority_policy_hash: Seq::empty(),
        }
    }

    open spec fn merged(m: TransitionView, f: FieldView, depth: nat) -> Option<TransitionView> {
        match f.value {
            ValueView::Varint(v) => if f.tag == 7 {
                Some(TransitionView { anchor_counter: v, ..m })
            } else if f.tag == 8 {
                Some(TransitionView { next_anchor_counter: v, ..m })
            } else if f.tag == 9 {
                Some(TransitionView { action_type: v as u32, ..m })
            } else if 1 <= f.tag <= 14 {
                None
            } else {
                Some(m)
            },
            ValueView::Bytes(b) => if f.tag == 1 {
                Some(TransitionView { relationship_id: b, ..m })
            } else if f.tag == 2 {
                Some(TransitionView { object_id: b, ..m })
            } else if f.tag == 3 {
                Some(TransitionView { sender_device_id: b, ..m })
            } else if f.tag == 4 {
                Some(TransitionView { recipient_device_id: b, ..m })
            } else if f.tag == 5 {
                Some(TransitionView { prev_root: b, ..m })
            } else if f.tag == 6 {
                Some(TransitionView { next_root: b, ..m })
            } else if f.tag == 10 {
                Some(TransitionView { action_fields: b, ..m })
            } else if f.tag == 11 {
                Some(TransitionView { payload_hash: b, ..m })
            } else if f.tag == 12 {
                Some(TransitionView { old_leaf_proof: b, ..m })
            } else if f.tag == 13 {
                Some(TransitionView { new_leaf_proof: b, ..m })
            } else if f.tag == 14 {
                Some(TransitionView { authority_policy_hash: b, ..m })
            } else if 1 <= f.tag <= 14 {
                None
            } else {
                Some(m)
            },
            ValueView::Other => if 1 <= f.tag <= 14 {
                None
            } else {
                Some(m)
            },
        }
    }

    open spec fn encoded(m: TransitionView) -> Seq<u8> {
        Seq::empty()
            + bytes_field(1, m.relationship_id)
            + bytes_field(2, m.object_id)
            + bytes_field(3, m.sender_device_id)
            + bytes_field(4, m.recipient_device_id)
            + bytes_field(5, m.prev_root)
            + bytes_field(6, m.next_root)
            + varint_field(7, m.anchor_counter)
            + varint_field(8, m.next_anchor_counter)
            + varint_field(9, m.action_type as u64)
            + bytes_field(10, m.action_fields)
            + bytes_field(11, m.payload_hash)
            + bytes_field(12, m.old_leaf_proof)
            + bytes_field(13, m.new_leaf_proof)
            + bytes_field(14, m.authority_policy_hash)
    }

    fn empty() -> (m: Self) {
        TransitionPackage {
            relationship_id: Vec::new(),
            object_id: Vec::new(),
            sender_device_id: Vec::new(),
            recipient_device_id: Vec::new(),
            prev_root: Vec::new(),
            next_root: Vec::new(),
            anchor_counter: 0,
            next_anchor_counter: 0,
            action_type: 0,
            action_fields: Vec::new(),
            payload_hash: Vec::new(),
            old_leaf_proof: Vec::new(),
            new_leaf_proof: Vec::new(),
            authority_policy_hash: Vec::new(),
        }
    }

    fn merge_field(self, f: &Field, depth: u32) -> (merged: Option<Self>) {
        let mut m: Self = self;
        match &f.value {
            Value::Varint(v) => if f.tag == 7 {
                m.anchor_counter = *v;
                Some(m)
            } else if f.tag == 8 {
                m.next_anchor_counter = *v;
                Some(m)
            } else if f.tag == 9 {
                m.action_type = *v as u32;
                Some(m)
            } else if f.tag >= 1 && f.tag <= 14 {
                None
            } else {
                Some(m)
            },
            Value::Bytes(b) => if f.tag == 1 {
                m.relationship_id = slice_to_vec(b);
                Some(m)
            } else if f.tag == 2 {
                m.object_id = slice_to_vec(b);
                Some(m)
            } else if f.tag == 3 {
                m.sender_device_id = slice_to_vec(b);
                Some(m)
            } else if f.tag == 4 {
                m.recipient_device_id = slice_to_vec(b);
                Some(m)
            } else if f.tag == 5 {
                m.prev_root = slice_to_vec(b);
                Some(m)
            } else if f.tag == 6 {
                m.next_root = slice_to_vec(b);
                Some(m)
            } else if f.tag == 10 {
                m.action_fields = slice_to_vec(b);
                Some(m)
            } else if f.tag == 11 {
                m.payload_hash = slice_to_vec(b);
                Some(m)
            } else if f.tag == 12 {
                m.old_leaf_proof = slice_to_vec(b);
                Some(m)
            } else if f.tag == 13 {
                m.new_leaf_proof = slice_to_vec(b);
                Some(m)
            } else if f.tag == 14 {
                m.authority_policy_hash = slice_to_vec(b);
                Some(m)
            } else if f.tag >= 1 && f.tag <= 14 {
                None
            } else {
                Some(m)
            },
            Value::Other => if f.tag >= 1 && f.tag <= 14 {
                None
            } else {
                Some(m)
            },
        }
    }

    fn encode(&self) -> (bytes: Vec<u8>) {
        let mut buf: Vec<u8> = Vec::new();
        push_bytes(&mut buf, 1, self.relationship_id.as_slice());
        push_bytes(&mut buf, 2, self.object_id.as_slice());
        push_bytes(&mut buf, 3, self.sender_device_id.as_slice());
        push_bytes(&mut buf, 4, self.recipient_device_id.as_slice());
        push_bytes(&mut buf, 5, self.prev_root.as_slice());
        push_bytes(&mut buf, 6, self.next_root.as_slice());
        push_varint(&mut buf, 7, self.anchor_counter);
        push_varint(&mut buf, 8, self.next_anchor_counter);
        push_varint(&mut buf, 9, self.action_type as u64);
        push_bytes(&mut buf, 10, self.action_fields.as_slice());
        push_bytes(&mut buf, 11, self.payload_hash.as_slice());
        push_bytes(&mut buf, 12, self.old_leaf_proof.as_slice());
        push_bytes(&mut buf, 13, self.new_leaf_proof.as_slice());
        push_bytes(&mut buf, 14, self.authority_policy_hash.as_slice());
        buf
    }
}

/// [`TransitionPackage`]: what is written is read back as the same message.
#[verifier::rlimit(40)]
#[verifier::spinoff_prover]
pub proof fn lemma_transition_package_round_trip(m: TransitionView, depth: nat)
    requires
        TransitionPackage::encoded(m).len() <= u64::MAX,
        depth >= 1,
    ensures
        parsed::<TransitionPackage>(
            TransitionPackage::blank(),
            TransitionPackage::encoded(m),
            depth,
        ) == Some(m),
{
    let m0 = TransitionPackage::blank();
    let e0 = Seq::<u8>::empty();
    lemma_reads_nothing::<TransitionPackage>(m0, depth);
    let m1 = TransitionView { relationship_id: m.relationship_id, ..m0 };
    assert(m.relationship_id.len() == 0 ==> m.relationship_id =~= Seq::<u8>::empty());
    lemma_reads_bytes::<TransitionPackage>(m0, e0, m0, 1, m.relationship_id, m1, depth);
    let e1 = e0 + bytes_field(1, m.relationship_id);
    let m2 = TransitionView { object_id: m.object_id, ..m1 };
    assert(m.object_id.len() == 0 ==> m.object_id =~= Seq::<u8>::empty());
    lemma_reads_bytes::<TransitionPackage>(m0, e1, m1, 2, m.object_id, m2, depth);
    let e2 = e1 + bytes_field(2, m.object_id);
    let m3 = TransitionView { sender_device_id: m.sender_device_id, ..m2 };
    assert(m.sender_device_id.len() == 0 ==> m.sender_device_id =~= Seq::<u8>::empty());
    lemma_reads_bytes::<TransitionPackage>(m0, e2, m2, 3, m.sender_device_id, m3, depth);
    let e3 = e2 + bytes_field(3, m.sender_device_id);
    let m4 = TransitionView { recipient_device_id: m.recipient_device_id, ..m3 };
    assert(m.recipient_device_id.len() == 0 ==> m.recipient_device_id =~= Seq::<u8>::empty());
    lemma_reads_bytes::<TransitionPackage>(m0, e3, m3, 4, m.recipient_device_id, m4, depth);
    let e4 = e3 + bytes_field(4, m.recipient_device_id);
    let m5 = TransitionView { prev_root: m.prev_root, ..m4 };
    assert(m.prev_root.len() == 0 ==> m.prev_root =~= Seq::<u8>::empty());
    lemma_reads_bytes::<TransitionPackage>(m0, e4, m4, 5, m.prev_root, m5, depth);
    let e5 = e4 + bytes_field(5, m.prev_root);
    let m6 = TransitionView { next_root: m.next_root, ..m5 };
    assert(m.next_root.len() == 0 ==> m.next_root =~= Seq::<u8>::empty());
    lemma_reads_bytes::<TransitionPackage>(m0, e5, m5, 6, m.next_root, m6, depth);
    let e6 = e5 + bytes_field(6, m.next_root);
    let m7 = TransitionView { anchor_counter: m.anchor_counter, ..m6 };
    lemma_reads_varint::<TransitionPackage>(m0, e6, m6, 7, m.anchor_counter, m7, depth);
    let e7 = e6 + varint_field(7, m.anchor_counter);
    let m8 = TransitionView { next_anchor_counter: m.next_anchor_counter, ..m7 };
    lemma_reads_varint::<TransitionPackage>(m0, e7, m7, 8, m.next_anchor_counter, m8, depth);
    let e8 = e7 + varint_field(8, m.next_anchor_counter);
    let m9 = TransitionView { action_type: m.action_type, ..m8 };
    lemma_reads_varint::<TransitionPackage>(m0, e8, m8, 9, m.action_type as u64, m9, depth);
    let e9 = e8 + varint_field(9, m.action_type as u64);
    let m10 = TransitionView { action_fields: m.action_fields, ..m9 };
    assert(m.action_fields.len() == 0 ==> m.action_fields =~= Seq::<u8>::empty());
    lemma_reads_bytes::<TransitionPackage>(m0, e9, m9, 10, m.action_fields, m10, depth);
    let e10 = e9 + bytes_field(10, m.action_fields);
    let m11 = TransitionView { payload_hash: m.payload_hash, ..m10 };
    assert(m.payload_hash.len() == 0 ==> m.payload_hash =~= Seq::<u8>::empty());
    lemma_reads_bytes::<TransitionPackage>(m0, e10, m10, 11, m.payload_hash, m11, depth);
    let e11 = e10 + bytes_field(11, m.payload_hash);
    let m12 = TransitionView { old_leaf_proof: m.old_leaf_proof, ..m11 };
    assert(m.old_leaf_proof.len() == 0 ==> m.old_leaf_proof =~= Seq::<u8>::empty());
    lemma_reads_bytes::<TransitionPackage>(m0, e11, m11, 12, m.old_leaf_proof, m12, depth);
    let e12 = e11 + bytes_field(12, m.old_leaf_proof);
    let m13 = TransitionView { new_leaf_proof: m.new_leaf_proof, ..m12 };
    assert(m.new_leaf_proof.len() == 0 ==> m.new_leaf_proof =~= Seq::<u8>::empty());
    lemma_reads_bytes::<TransitionPackage>(m0, e12, m12, 13, m.new_leaf_proof, m13, depth);
    let e13 = e12 + bytes_field(13, m.new_leaf_proof);
    let m14 = TransitionView { authority_policy_hash: m.authority_policy_hash, ..m13 };
    assert(m.authority_policy_hash.len() == 0 ==> m.authority_policy_hash =~= Seq::<u8>::empty());
    lemma_reads_bytes::<TransitionPackage>(m0, e13, m13, 14, m.authority_policy_hash, m14, depth);
    let e14 = e13 + bytes_field(14, m.authority_policy_hash);
    lemma_reads_whole::<TransitionPackage>(m0, e14, m14, depth);
}

/// The contents of [`RootAdvanceCertificate`].
#[verifier::ext_equal]
pub struct RootAdvanceCertificateView {
    pub prev_root: Seq<u8>,
    pub next_root: Seq<u8>,
    pub anchor_counter: u64,
    pub next_anchor_counter: u64,
    pub transition_digest: Seq<u8>,
    pub witness_input: Seq<u8>,
    pub pk_hash: Seq<u8>,
    pub pk_hw: Seq<u8>,
    pub sigma: Seq<u8>,
    pub anchor_id: Seq<u8>,
    pub slot: u32,
    pub receiver_challenge: Seq<u8>,
}

/// A root-advance certificate, as it is sent.
#[derive(Clone, Debug, PartialEq)]
pub struct RootAdvanceCertificate {
    pub prev_root: Vec<u8>,
    pub next_root: Vec<u8>,
    pub anchor_counter: u64,
    pub next_anchor_counter: u64,
    pub transition_digest: Vec<u8>,
    pub witness_input: Vec<u8>,
    pub pk_hash: Vec<u8>,
    pub pk_hw: Vec<u8>,
    pub sigma: Vec<u8>,
    pub anchor_id: Vec<u8>,
    pub slot: u32,
    pub receiver_challenge: Vec<u8>,
}

impl View for RootAdvanceCertificate {
    type V = RootAdvanceCertificateView;

    open spec fn view(&self) -> RootAdvanceCertificateView {
        RootAdvanceCertificateView {
            prev_root: self.prev_root@,
            next_root: self.next_root@,
            anchor_counter: self.anchor_counter,
            next_anchor_counter: self.next_anchor_counter,
            transition_digest: self.transition_digest@,
            witness_input: self.witness_input@,
            pk_hash: self.pk_hash@,
            pk_hw: self.pk_hw@,
            sigma: self.sigma@,
            anchor_id: self.anchor_id@,
            slot: self.slot,
            receiver_challenge: self.receiver_challenge@,
        }
    }
}

impl Default for RootAdvanceCertificate {
    /// The message without any field.
    fn default() -> (m: Self)
        ensures
            m@ == RootAdvanceCertificate::blank(),
    {
        RootAdvanceCertificate::empty()
    }
}

impl Message for RootAdvanceCertificate {
    open spec fn blank() -> RootAdvanceCertificateView {
        RootAdvanceCertificateView {
            prev_root: Seq::empty(),
            next_root: Seq::empty(),
            anchor_counter: 0,
            next_anchor_counter: 0,
            transition_digest: Seq::empty(),
            witness_input: Seq::empty(),
            pk_hash: Seq::empty(),
            pk_hw: Seq::empty(),
            sigma: Seq::empty(),
            anchor_id: Seq::empty(),
            slot: 0,
            receiver_challenge: Seq::empty(),
        }
    }

    open spec fn merged(
        m: RootAdvanceCertificateView,
        f: FieldView,
        depth: nat,
    ) -> Option<RootAdvanceCertificateView> {
        match f.value {
            ValueView::Varint(v) => if f.tag == 3 {
                Some(RootAdvanceCertificateView { anchor_counter: v, ..m })
            } else if f.tag == 4 {
                Some(RootAdvanceCertificateView { next_anchor_counter: v, ..m })
            } else if f.tag == 11 {
                Some(RootAdvanceCertificateView { slot: v as u32, ..m })
            } else if 1 <= f.tag <= 12 {
                None
            } else {
                Some(m)
            },
            ValueView::Bytes(b) => if f.tag == 1 {
                Some(RootAdvanceCertificateView { prev_root: b, ..m })
            } else if f.tag == 2 {
                Some(RootAdvanceCertificateView { next_root: b, ..m })
            } else if f.tag == 5 {
                Some(RootAdvanceCertificateView { transition_digest: b, ..m })
            } else if f.tag == 6 {
                Some(RootAdvanceCertificateView { witness_input: b, ..m })
            } else if f.tag == 7 {
                Some(RootAdvanceCertificateView { pk_hash: b, ..m })
            } else if f.tag == 8 {
                Some(RootAdvanceCertificateView { pk_hw: b, ..m })
            } else if f.tag == 9 {
                Some(RootAdvanceCertificateView { sigma: b, ..m })
            } else if f.tag == 10 {
                Some(RootAdvanceCertificateView { anchor_id: b, ..m })
            } else if f.tag == 12 {
                Some(RootAdvanceCertificateView { receiver_challenge: b, ..m })
            } else if 1 <= f.tag <= 12 {
                None
            } else {
                Some(m)
            },
            ValueView::Other => if 1 <= f.tag <= 12 {
                None
            } else {
                Some(m)
            },
        }
    }

    open spec fn encoded(m: RootAdvanceCertificateView) -> Seq<u8> {
        Seq::empty()
            + bytes_field(1, m.prev_root)
            + bytes_field(2, m.next_root)
            + varint_field(3, m.anchor_counter)
            + varint_field(4, m.next_anchor_counter)
            + bytes_field(5, m.transition_digest)
            + bytes_field(6, m.witness_input)
            + bytes_field(7, m.pk_hash)
            + bytes_field(8, m.pk_hw)
            + bytes_field(9, m.sigma)
            + bytes_field(10, m.anchor_id)
            + varint_field(11, m.slot as u64)
            + bytes_field(12, m.receiver_challenge)
    }

    fn empty() -> (m: Self) {
        RootAdvanceCertificate {
            prev_root: Vec::new(),
            next_root: Vec::new(),
            anchor_counter: 0,
            next_anchor_counter: 0,
            transition_digest: Vec::new(),
            witness_input: Vec::new(),
            pk_hash: Vec::new(),
            pk_hw: Vec::new(),
            sigma: Vec::new(),
            anchor_id: Vec::new(),
            slot: 0,
            receiver_challenge: Vec::new(),
        }
    }

    fn merge_field(self, f: &Field, depth: u32) -> (merged: Option<Self>) {
        let mut m: Self = self;
        match &f.value {
            Value::Varint(v) => if f.tag == 3 {
                m.anchor_counter = *v;
                Some(m)
            } else if f.tag == 4 {
                m.next_anchor_counter = *v;
                Some(m)
            } else if f.tag == 11 {
                m.slot = *v as u32;
                Some(m)
            } else if f.tag >= 1 && f.tag <= 12 {
                None
            } else {
                Some(m)
            },
            Value::Bytes(b) => if f.tag == 1 {
                m.prev_root = slice_to_vec(b);
                Some(m)
            } else if f.tag == 2 {
                m.next_root = slice_to_vec(b);
                Some(m)
            } else if f.tag == 5 {
                m.transition_digest = slice_to_vec(b);
                Some(m)
            } else if f.tag == 6 {
                m.witness_input = slice_to_vec(b);
                Some(m)
            } else if f.tag == 7 {
                m.pk_hash = slice_to_vec(b);
                Some(m)
            } else if f.tag == 8 {
                m.pk_hw = slice_to_vec(b);
                Some(m)
            } else if f.tag == 9 {
                m.sigma = slice_to_vec(b);
                Some(m)
            } else if f.tag == 10 {
                m.anchor_id = slice_to_vec(b);
                Some(m)
            } else if f.tag == 12 {
                m.receiver_challenge = slice_to_vec(b);
                Some(m)
            } else if f.tag >= 1 && f.tag <= 12 {
                None
            } else {
                Some(m)
            },
            Value::Other => if f.tag >= 1 && f.tag <= 12 {
                None
            } else {
                Some(m)
            },
        }
    }

    fn encode(&self) -> (bytes: Vec<u8>) {
        let mut buf: Vec<u8> = Vec::new();
        push_bytes(&mut buf, 1, self.prev_root.as_slice());
        push_bytes(&mut buf, 2, self.next_root.as_slice());
        push_varint(&mut buf, 3, self.anchor_counter);
        push_varint(&mut buf, 4, self.next_anchor_counter);
        push_bytes(&mut buf, 5, self.transition_digest.as_slice());
        push_bytes(&mut buf, 6, self.witness_input.as_slice());
        push_bytes(&mut buf, 7, self.pk_hash.as_slice());
        push_bytes(&mut buf, 8, self.pk_hw.as_slice());
        push_bytes(&mut buf, 9, self.sigma.as_slice());
        push_bytes(&mut buf, 10, self.anchor_id.as_slice());
        push_varint(&mut buf, 11, self.slot as u64);
        push_bytes(&mut buf, 12, self.receiver_challenge.as_slice());
        buf
    }
}

/// [`RootAdvanceCertificate`]: what is written is read back as the same message.
#[verifier::rlimit(40)]
#[verifier::spinoff_prover]
pub proof fn lemma_root_advance_certificate_round_trip(m: RootAdvanceCertificateView, depth: nat)
    requires
        RootAdvanceCertificate::encoded(m).len() <= u64::MAX,
        depth >= 1,
    ensures
        parsed::<RootAdvanceCertificate>(
            RootAdvanceCertificate::blank(),
            RootAdvanceCertificate::encoded(m),
            depth,
        ) == Some(m),
{
    let m0 = RootAdvanceCertificate::blank();
    let e0 = Seq::<u8>::empty();
    lemma_reads_nothing::<RootAdvanceCertificate>(m0, depth);
    let m1 = RootAdvanceCertificateView { prev_root: m.prev_root, ..m0 };
    assert(m.prev_root.len() == 0 ==> m.prev_root =~= Seq::<u8>::empty());
    lemma_reads_bytes::<RootAdvanceCertificate>(m0, e0, m0, 1, m.prev_root, m1, depth);
    let e1 = e0 + bytes_field(1, m.prev_root);
    let m2 = RootAdvanceCertificateView { next_root: m.next_root, ..m1 };
    assert(m.next_root.len() == 0 ==> m.next_root =~= Seq::<u8>::empty());
    lemma_reads_bytes::<RootAdvanceCertificate>(m0, e1, m1, 2, m.next_root, m2, depth);
    let e2 = e1 + bytes_field(2, m.next_root);
    let m3 = RootAdvanceCertificateView { anchor_counter: m.anchor_counter, ..m2 };
    lemma_reads_varint::<RootAdvanceCertificate>(m0, e2, m2, 3, m.anchor_counter, m3, depth);
    let e3 = e2 + varint_field(3, m.anchor_counter);
    let m4 = RootAdvanceCertificateView { next_anchor_counter: m.next_anchor_counter, ..m3 };
    lemma_reads_varint::<RootAdvanceCertificate>(m0, e3, m3, 4, m.next_anchor_counter, m4, depth);
    let e4 = e3 + varint_field(4, m.next_anchor_counter);
    let m5 = RootAdvanceCertificateView { transition_digest: m.transition_digest, ..m4 };
    assert(m.transition_digest.len() == 0 ==> m.transition_digest =~= Seq::<u8>::empty());
    lemma_reads_bytes::<RootAdvanceCertificate>(m0, e4, m4, 5, m.transition_digest, m5, depth);
    let e5 = e4 + bytes_field(5, m.transition_digest);
    let m6 = RootAdvanceCertificateView { witness_input: m.witness_input, ..m5 };
    assert(m.witness_input.len() == 0 ==> m.witness_input =~= Seq::<u8>::empty());
    lemma_reads_bytes::<RootAdvanceCertificate>(m0, e5, m5, 6, m.witness_input, m6, depth);
    let e6 = e5 + bytes_field(6, m.witness_input);
    let m7 = RootAdvanceCertificateView { pk_hash: m.pk_hash, ..m6 };
    assert(m.pk_hash.len() == 0 ==> m.pk_hash =~= Seq::<u8>::empty());
    lemma_reads_bytes::<RootAdvanceCertificate>(m0, e6, m6, 7, m.pk_hash, m7, depth);
    let e7 = e6 + bytes_field(7, m.pk_hash);
    let m8 = RootAdvanceCertificateView { pk_hw: m.pk_hw, ..m7 };
    assert(m.pk_hw.len() == 0 ==> m.pk_hw =~= Seq::<u8>::empty());
    lemma_reads_bytes::<RootAdvanceCertificate>(m0, e7, m7, 8, m.pk_hw, m8, depth);
    let e8 = e7 + bytes_field(8, m.pk_hw);
    let m9 = RootAdvanceCertificateView { sigma: m.sigma, ..m8 };
    assert(m.sigma.len() == 0 ==> m.sigma =~= Seq::<u8>::empty());
    lemma_reads_bytes::<RootAdvanceCertificate>(m0, e8, m8, 9, m.sigma, m9, depth);
    let e9 = e8 + bytes_field(9, m.sigma);
    let m10 = RootAdvanceCertificateView { anchor_id: m.anchor_id, ..m9 };
    assert(m.anchor_id.len() == 0 ==> m.anchor_id =~= Seq::<u8>::empty());
    lemma_reads_bytes::<RootAdvanceCertificate>(m0, e9, m9, 10, m.anchor_id, m10, depth);
    let e10 = e9 + bytes_field(10, m.anchor_id);
    let m11 = RootAdvanceCertificateView { slot: m.slot, ..m10 };
    lemma_reads_varint::<RootAdvanceCertificate>(m0, e10, m10, 11, m.slot as u64, m11, depth);
    let e11 = e10 + varint_field(11, m.slot as u64);
    let m12 = RootAdvanceCertificateView { receiver_challenge: m.receiver_challenge, ..m11 };
    assert(m.receiver_challenge.len() == 0 ==> m.receiver_challenge =~= Seq::<u8>::empty());
    lemma_reads_bytes::<RootAdvanceCertificate>(m0, e11, m11, 12, m.receiver_challenge, m12, depth);
    let e12 = e11 + bytes_field(12, m.receiver_challenge);
    lemma_reads_whole::<RootAdvanceCertificate>(m0, e12, m12, depth);
}

/// Counter evidence, as it is sent.
#[derive(Clone, Debug, PartialEq)]
pub struct CounterEvidence {
    pub anchor_id: Vec<u8>,
    pub enrolled_counter: u64,
    pub live_counter_claim: u64,
    pub derived_index_claim: u64,
    pub verifier_transcript: Vec<u8>,
}

impl View for CounterEvidence {
    type V = CounterEvidenceView;

    open spec fn view(&self) -> CounterEvidenceView {
        CounterEvidenceView {
            anchor_id: self.anchor_id@,
            enrolled_counter: self.enrolled_counter,
            live_counter_claim: self.live_counter_claim,
            derived_index_claim: self.derived_index_claim,
            verifier_transcript: self.verifier_transcript@,
        }
    }
}

impl Default for CounterEvidence {
    /// The message without any field.
    fn default() -> (m: Self)
        ensures
            m@ == CounterEvidence::blank(),
    {
        CounterEvidence::empty()
    }
}

impl Message for CounterEvidence {
    open spec fn blank() -> CounterEvidenceView {
        CounterEvidenceView {
            anchor_id: Seq::empty(),
            enrolled_counter: 0,
            live_counter_claim: 0,
            derived_index_claim: 0,
            verifier_transcript: Seq::empty(),
        }
    }

    open spec fn merged(
        m: CounterEvidenceView,
        f: FieldView,
        depth: nat,
    ) -> Option<CounterEvidenceView> {
        match f.value {
            ValueView::Varint(v) => if f.tag == 2 {
                Some(CounterEvidenceView { enrolled_counter: v, ..m })
            } else if f.tag == 3 {
                Some(CounterEvidenceView { live_counter_claim: v, ..m })
            } else if f.tag == 4 {
                Some(CounterEvidenceView { derived_index_claim: v, ..m })
            } else if 1 <= f.tag <= 5 {
                None
            } else {
                Some(m)
            },
            ValueView::Bytes(b) => if f.tag == 1 {
                Some(CounterEvidenceView { anchor_id: b, ..m })
            } else if f.tag == 5 {
                Some(CounterEvidenceView { verifier_transcript: b, ..m })
            } else if 1 <= f.tag <= 5 {
                None
            } else {
                Some(m)
            },
            ValueView::Other => if 1 <= f.tag <= 5 {
                None
            } else {
                Some(m)
            },
        }
    }

    open spec fn encoded(m: CounterEvidenceView) -> Seq<u8> {
        Seq::empty()
            + bytes_field(1, m.anchor_id)
            + varint_field(2, m.enrolled_counter)
            + varint_field(3, m.live_counter_claim)
            + varint_field(4, m.derived_index_claim)
            + bytes_field(5, m.verifier_transcript)
    }

    fn empty() -> (m: Self) {
        CounterEvidence {
            anchor_id: Vec::new(),
            enrolled_counter: 0,
            live_counter_claim: 0,
            derived_index_claim: 0,
            verifier_transcript: Vec::new(),
        }
    }

    fn merge_field(self, f: &Field, depth: u32) -> (merged: Option<Self>) {
        let mut m: Self = self;
        match &f.value {
            Value::Varint(v) => if f.tag == 2 {
                m.enrolled_counter = *v;
                Some(m)
            } else if f.tag == 3 {
                m.live_counter_claim = *v;
                Some(m)
            } else if f.tag == 4 {
                m.derived_index_claim = *v;
                Some(m)
            } else if f.tag >= 1 && f.tag <= 5 {
                None
            } else {
                Some(m)
            },
            Value::Bytes(b) => if f.tag == 1 {
                m.anchor_id = slice_to_vec(b);
                Some(m)
            } else if f.tag == 5 {
                m.verifier_transcript = slice_to_vec(b);
                Some(m)
            } else if f.tag >= 1 && f.tag <= 5 {
                None
            } else {
                Some(m)
            },
            Value::Other => if f.tag >= 1 && f.tag <= 5 {
                None
            } else {
                Some(m)
            },
        }
    }

    fn encode(&self) -> (bytes: Vec<u8>) {
        let mut buf: Vec<u8> = Vec::new();
        push_bytes(&mut buf, 1, self.anchor_id.as_slice());
        push_varint(&mut buf, 2, self.enrolled_counter);
        push_varint(&mut buf, 3, self.live_counter_claim);
        push_varint(&mut buf, 4, self.derived_index_claim);
        push_bytes(&mut buf, 5, self.verifier_transcript.as_slice());
        buf
    }
}

/// [`CounterEvidence`]: what is written is read back as the same message.
pub proof fn lemma_counter_evidence_round_trip(m: CounterEvidenceView, depth: nat)
    requires
        CounterEvidence::encoded(m).len() <= u64::MAX,
        depth >= 1,
    ensures
        parsed::<CounterEvidence>(
            CounterEvidence::blank(),
            CounterEvidence::encoded(m),
            depth,
        ) == Some(m),
{
    let m0 = CounterEvidence::blank();
    let e0 = Seq::<u8>::empty();
    lemma_reads_nothing::<CounterEvidence>(m0, depth);
    let m1 = CounterEvidenceView { anchor_id: m.anchor_id, ..m0 };
    assert(m.anchor_id.len() == 0 ==> m.anchor_id =~= Seq::<u8>::empty());
    lemma_reads_bytes::<CounterEvidence>(m0, e0, m0, 1, m.anchor_id, m1, depth);
    let e1 = e0 + bytes_field(1, m.anchor_id);
    let m2 = CounterEvidenceView { enrolled_counter: m.enrolled_counter, ..m1 };
    lemma_reads_varint::<CounterEvidence>(m0, e1, m1, 2, m.enrolled_counter, m2, depth);
    let e2 = e1 + varint_field(2, m.enrolled_counter);
    let m3 = CounterEvidenceView { live_counter_claim: m.live_counter_claim, ..m2 };
    lemma_reads_varint::<CounterEvidence>(m0, e2, m2, 3, m.live_counter_claim, m3, depth);
    let e3 = e2 + varint_field(3, m.live_counter_claim);
    let m4 = CounterEvidenceView { derived_index_claim: m.derived_index_claim, ..m3 };
    lemma_reads_varint::<CounterEvidence>(m0, e3, m3, 4, m.derived_index_claim, m4, depth);
    let e4 = e3 + varint_field(4, m.derived_index_claim);
    let m5 = CounterEvidenceView { verifier_transcript: m.verifier_transcript, ..m4 };
    assert(m.verifier_transcript.len() == 0 ==> m.verifier_transcript =~= Seq::<u8>::empty());
    lemma_reads_bytes::<CounterEvidence>(m0, e4, m4, 5, m.verifier_transcript, m5, depth);
    let e5 = e4 + bytes_field(5, m.verifier_transcript);
    lemma_reads_whole::<CounterEvidence>(m0, e5, m5, depth);
}

/// The contents of [`OfflineRelease`].
#[verifier::ext_equal]
pub struct OfflineReleaseView {
    pub transition: Option<TransitionView>,
    pub cert: Option<RootAdvanceCertificateView>,
    pub counter: Option<CounterEvidenceView>,
}

/// An offline release, as it is sent.
#[derive(Clone, Debug, PartialEq)]
pub struct OfflineRelease {
    pub transition: Option<TransitionPackage>,
    pub cert: Option<RootAdvanceCertificate>,
    pub counter: Option<CounterEvidence>,
}

impl View for OfflineRelease {
    type V = OfflineReleaseView;

    open spec fn view(&self) -> OfflineReleaseView {
        OfflineReleaseView {
            transition: view_of(self.transition),
            cert: view_of(self.cert),
            counter: view_of(self.counter),
        }
    }
}

impl Default for OfflineRelease {
    /// The message without any field.
    fn default() -> (m: Self)
        ensures
            m@ == OfflineRelease::blank(),
    {
        OfflineRelease::empty()
    }
}

impl Message for OfflineRelease {
    open spec fn blank() -> OfflineReleaseView {
        OfflineReleaseView {
            transition: None,
            cert: None,
            counter: None,
        }
    }

    open spec fn merged(
        m: OfflineReleaseView,
        f: FieldView,
        depth: nat,
    ) -> Option<OfflineReleaseView> {
        match f.value {
            ValueView::Bytes(b) => if f.tag == 1 {
                match merged_message::<TransitionPackage>(m.transition, b, depth) {
                    None => None,
                    Some(inner) => Some(OfflineReleaseView { transition: Some(inner), ..m }),
                }
            } else if f.tag == 2 {
                match merged_message::<RootAdvanceCertificate>(m.cert, b, depth) {
                    None => None,
                    Some(inner) => Some(OfflineReleaseView { cert: Some(inner), ..m }),
                }
            } else if f.tag == 3 {
                match merged_message::<CounterEvidence>(m.counter, b, depth) {
                    None => None,
                    Some(inner) => Some(OfflineReleaseView { counter: Some(inner), ..m }),
                }
            } else if 1 <= f.tag <= 3 {
                None
            } else {
                Some(m)
            },
            _ => if 1 <= f.tag <= 3 {
                None
            } else {
                Some(m)
            },
        }
    }

    open spec fn encoded(m: OfflineReleaseView) -> Seq<u8> {
        Seq::empty()
            + message_field::<TransitionPackage>(1, m.transition)
            + message_field::<RootAdvanceCertificate>(2, m.cert)
            + message_field::<CounterEvidence>(3, m.counter)
    }

    fn empty() -> (m: Self) {
        OfflineRelease {
            transition: None,
            cert: None,
            counter: None,
        }
    }

    fn merge_field(self, f: &Field, depth: u32) -> (merged: Option<Self>) {
        let mut m: Self = self;
        match &f.value {
            Value::Bytes(b) => if f.tag == 1 {
                match merge_message(m.transition.take(), b, depth) {
                    None => None,
                    Some(inner) => {
                        m.transition = Some(inner);
                        Some(m)
                    },
                }
            } else if f.tag == 2 {
                match merge_message(m.cert.take(), b, depth) {
                    None => None,
                    Some(inner) => {
                        m.cert = Some(inner);
                        Some(m)
                    },
                }
            } else if f.tag == 3 {
                match merge_message(m.counter.take(), b, depth) {
                    None => None,
                    Some(inner) => {
                        m.counter = Some(inner);
                        Some(m)
                    },
                }
            } else if f.tag >= 1 && f.tag <= 3 {
                None
            } else {
                Some(m)
            },
            _ => if f.tag >= 1 && f.tag <= 3 {
                None
            } else {
                Some(m)
            },
        }
    }

    fn encode(&self) -> (bytes: Vec<u8>) {
        let mut buf: Vec<u8> = Vec::new();
        push_message(&mut buf, 1, &self.transition);
        push_message(&mut buf, 2, &self.cert);
        push_message(&mut buf, 3, &self.counter);
        buf
    }
}

/// [`OfflineRelease`]: what is written is read back as the same message.
pub proof fn lemma_offline_release_round_trip(m: OfflineReleaseView, depth: nat)
    requires
        OfflineRelease::encoded(m).len() <= u64::MAX,
        depth >= 2,
    ensures
        parsed::<OfflineRelease>(
            OfflineRelease::blank(),
            OfflineRelease::encoded(m),
            depth,
        ) == Some(m),
{
    let m0 = OfflineRelease::blank();
    let e0 = Seq::<u8>::empty();
    lemma_reads_nothing::<OfflineRelease>(m0, depth);
    if let Some(inner) = m.transition {
        lemma_transition_package_round_trip(inner, (depth - 1) as nat);
    }
    let m1 = OfflineReleaseView { transition: m.transition, ..m0 };
    lemma_reads_message::<OfflineRelease, TransitionPackage>(
        m0,
        e0,
        m0,
        1,
        m.transition,
        m1,
        depth,
    );
    let e1 = e0 + message_field::<TransitionPackage>(1, m.transition);
    if let Some(inner) = m.cert {
        lemma_root_advance_certificate_round_trip(inner, (depth - 1) as nat);
    }
    let m2 = OfflineReleaseView { cert: m.cert, ..m1 };
    lemma_reads_message::<OfflineRelease, RootAdvanceCertificate>(m0, e1, m1, 2, m.cert, m2, depth);
    let e2 = e1 + message_field::<RootAdvanceCertificate>(2, m.cert);
    if let Some(inner) = m.counter {
        lemma_counter_evidence_round_trip(inner, (depth - 1) as nat);
    }
    let m3 = OfflineReleaseView { counter: m.counter, ..m2 };
    lemma_reads_message::<OfflineRelease, CounterEvidence>(m0, e2, m2, 3, m.counter, m3, depth);
    let e3 = e2 + message_field::<CounterEvidence>(3, m.counter);
    lemma_reads_whole::<OfflineRelease>(m0, e3, m3, depth);
}

/// The contents of [`ApplianceRequest`].
#[verifier::ext_equal]
pub struct ApplianceRequestView {
    pub op: i32,
    pub transition: Option<TransitionView>,
    pub receiver_challenge: Seq<u8>,
}

/// A request to the appliance.
#[derive(Clone, Debug, PartialEq)]
pub struct ApplianceRequest {
    pub op: i32,
    pub transition: Option<TransitionPackage>,
    pub receiver_challenge: Vec<u8>,
}

impl View for ApplianceRequest {
    type V = ApplianceRequestView;

    open spec fn view(&self) -> ApplianceRequestView {
        ApplianceRequestView {
            op: self.op,
            transition: view_of(self.transition),
            receiver_challenge: self.receiver_challenge@,
        }
    }
}

impl Default for ApplianceRequest {
    /// The message without any field.
    fn default() -> (m: Self)
        ensures
            m@ == ApplianceRequest::blank(),
    {
        ApplianceRequest::empty()
    }
}

impl Message for ApplianceRequest {
    open spec fn blank() -> ApplianceRequestView {
        ApplianceRequestView {
            op: 0,
            transition: None,
            receiver_challenge: Seq::empty(),
        }
    }

    open spec fn merged(
        m: ApplianceRequestView,
        f: FieldView,
        depth: nat,
    ) -> Option<ApplianceRequestView> {
        match f.value {
            ValueView::Varint(v) => if f.tag == 1 {
                Some(ApplianceRequestView { op: v as i32, ..m })
            } else if 1 <= f.tag <= 3 {
                None
            } else {
                Some(m)
            },
            ValueView::Bytes(b) => if f.tag == 2 {
                match merged_message::<TransitionPackage>(m.transition, b, depth) {
                    None => None,
                    Some(inner) => Some(ApplianceRequestView { transition: Some(inner), ..m }),
                }
            } else if f.tag == 3 {
                Some(ApplianceRequestView { receiver_challenge: b, ..m })
            } else if 1 <= f.tag <= 3 {
                None
            } else {
                Some(m)
            },
            ValueView::Other => if 1 <= f.tag <= 3 {
                None
            } else {
                Some(m)
            },
        }
    }

    open spec fn encoded(m: ApplianceRequestView) -> Seq<u8> {
        Seq::empty()
            + varint_field(1, m.op as u64)
            + message_field::<TransitionPackage>(2, m.transition)
            + bytes_field(3, m.receiver_challenge)
    }

    fn empty() -> (m: Self) {
        ApplianceRequest {
            op: 0,
            transition: None,
            receiver_challenge: Vec::new(),
        }
    }

    fn merge_field(self, f: &Field, depth: u32) -> (merged: Option<Self>) {
        let mut m: Self = self;
        match &f.value {
            Value::Varint(v) => if f.tag == 1 {
                m.op = *v as i32;
                Some(m)
            } else if f.tag >= 1 && f.tag <= 3 {
                None
            } else {
                Some(m)
            },
            Value::Bytes(b) => if f.tag == 2 {
                match merge_message(m.transition.take(), b, depth) {
                    None => None,
                    Some(inner) => {
                        m.transition = Some(inner);
                        Some(m)
                    },
                }
            } else if f.tag == 3 {
                m.receiver_challenge = slice_to_vec(b);
                Some(m)
            } else if f.tag >= 1 && f.tag <= 3 {
                None
            } else {
                Some(m)
            },
            Value::Other => if f.tag >= 1 && f.tag <= 3 {
                None
            } else {
                Some(m)
            },
        }
    }

    fn encode(&self) -> (bytes: Vec<u8>) {
        let mut buf: Vec<u8> = Vec::new();
        push_varint(&mut buf, 1, self.op as u64);
        push_message(&mut buf, 2, &self.transition);
        push_bytes(&mut buf, 3, self.receiver_challenge.as_slice());
        buf
    }
}

/// [`ApplianceRequest`]: what is written is read back as the same message.
pub proof fn lemma_appliance_request_round_trip(m: ApplianceRequestView, depth: nat)
    requires
        ApplianceRequest::encoded(m).len() <= u64::MAX,
        depth >= 2,
    ensures
        parsed::<ApplianceRequest>(
            ApplianceRequest::blank(),
            ApplianceRequest::encoded(m),
            depth,
        ) == Some(m),
{
    let m0 = ApplianceRequest::blank();
    let e0 = Seq::<u8>::empty();
    lemma_reads_nothing::<ApplianceRequest>(m0, depth);
    let v = m.op;
    assert((v as u64) as i32 == v && (v as u64 == 0 ==> v == 0)) by (bit_vector);
    let m1 = ApplianceRequestView { op: m.op, ..m0 };
    lemma_reads_varint::<ApplianceRequest>(m0, e0, m0, 1, m.op as u64, m1, depth);
    let e1 = e0 + varint_field(1, m.op as u64);
    if let Some(inner) = m.transition {
        lemma_transition_package_round_trip(inner, (depth - 1) as nat);
    }
    let m2 = ApplianceRequestView { transition: m.transition, ..m1 };
    lemma_reads_message::<ApplianceRequest, TransitionPackage>(
        m0,
        e1,
        m1,
        2,
        m.transition,
        m2,
        depth,
    );
    let e2 = e1 + message_field::<TransitionPackage>(2, m.transition);
    let m3 = ApplianceRequestView { receiver_challenge: m.receiver_challenge, ..m2 };
    assert(m.receiver_challenge.len() == 0 ==> m.receiver_challenge =~= Seq::<u8>::empty());
    lemma_reads_bytes::<ApplianceRequest>(m0, e2, m2, 3, m.receiver_challenge, m3, depth);
    let e3 = e2 + bytes_field(3, m.receiver_challenge);
    lemma_reads_whole::<ApplianceRequest>(m0, e3, m3, depth);
}

/// The contents of [`ApplianceResponse`].
#[verifier::ext_equal]
pub struct ApplianceResponseView {
    pub op: i32,
    pub ok: bool,
    pub error: u32,
    pub release: Option<OfflineReleaseView>,
    pub active_root: Seq<u8>,
    pub active_index: u64,
    pub status: u32,
}

/// A response of the appliance.
#[derive(Clone, Debug, PartialEq)]
pub struct ApplianceResponse {
    pub op: i32,
    pub ok: bool,
    pub error: u32,
    pub release: Option<OfflineRelease>,
    pub active_root: Vec<u8>,
    pub active_index: u64,
    pub status: u32,
}

impl View for ApplianceResponse {
    type V = ApplianceResponseView;

    open spec fn view(&self) -> ApplianceResponseView {
        ApplianceResponseView {
            op: self.op,
            ok: self.ok,
            error: self.error,
            release: view_of(self.release),
            active_root: self.active_root@,
            active_index: self.active_index,
            status: self.status,
        }
    }
}

impl Default for ApplianceResponse {
    /// The message without any field.
    fn default() -> (m: Self)
        ensures
            m@ == ApplianceResponse::blank(),
    {
        ApplianceResponse::empty()
    }
}

impl Message for ApplianceResponse {
    open spec fn blank() -> ApplianceResponseView {
        ApplianceResponseView {
            op: 0,
            ok: false,
            error: 0,
            release: None,
            active_root: Seq::empty(),
            active_index: 0,
            status: 0,
        }
    }

    open spec fn merged(
        m: ApplianceResponseView,
        f: FieldView,
        depth: nat,
    ) -> Option<ApplianceResponseView> {
        match f.value {
            ValueView::Varint(v) => if f.tag == 1 {
                Some(ApplianceResponseView { op: v as i32, ..m })
            } else if f.tag == 2 {
                Some(ApplianceResponseView { ok: v != 0, ..m })
            } else if f.tag == 3 {
                Some(ApplianceResponseView { error: v as u32, ..m })
            } else if f.tag == 6 {
                Some(ApplianceResponseView { active_index: v, ..m })
            } else if f.tag == 7 {
                Some(ApplianceResponseView { status: v as u32, ..m })
            } else if 1 <= f.tag <= 7 {
                None
            } else {
                Some(m)
            },
            ValueView::Bytes(b) => if f.tag == 4 {
                match merged_message::<OfflineRelease>(m.release, b, depth) {
                    None => None,
                    Some(inner) => Some(ApplianceResponseView { release: Some(inner), ..m }),
                }
            } else if f.tag == 5 {
                Some(ApplianceResponseView { active_root: b, ..m })
            } else if 1 <= f.tag <= 7 {
                None
            } else {
                Some(m)
            },
            ValueView::Other => if 1 <= f.tag <= 7 {
                None
            } else {
                Some(m)
            },
        }
    }

    open spec fn encoded(m: ApplianceResponseView) -> Seq<u8> {
        Seq::empty()
            + varint_field(1, m.op as u64)
            + varint_field(2, bool_bits(m.ok))
            + varint_field(3, m.error as u64)
            + message_field::<OfflineRelease>(4, m.release)
            + bytes_field(5, m.active_root)
            + varint_field(6, m.active_index)
            + varint_field(7, m.status as u64)
    }

    fn empty() -> (m: Self) {
        ApplianceResponse {
            op: 0,
            ok: false,
            error: 0,
            release: None,
            active_root: Vec::new(),
            active_index: 0,
            status: 0,
        }
    }

    fn merge_field(self, f: &Field, depth: u32) -> (merged: Option<Self>) {
        let mut m: Self = self;
        match &f.value {
            Value::Varint(v) => if f.tag == 1 {
                m.op = *v as i32;
                Some(m)
            } else if f.tag == 2 {
                m.ok = *v != 0;
                Some(m)
            } else if f.tag == 3 {
                m.error = *v as u32;
                Some(m)
            } else if f.tag == 6 {
                m.active_index = *v;
                Some(m)
            } else if f.tag == 7 {
                m.status = *v as u32;
                Some(m)
            } else if f.tag >= 1 && f.tag <= 7 {
                None
            } else {
                Some(m)
            },
            Value::Bytes(b) => if f.tag == 4 {
                match merge_message(m.release.take(), b, depth) {
                    None => None,
                    Some(inner) => {
                        m.release = Some(inner);
                        Some(m)
                    },
                }
            } else if f.tag == 5 {
                m.active_root = slice_to_vec(b);
                Some(m)
            } else if f.tag >= 1 && f.tag <= 7 {
                None
            } else {
                Some(m)
            },
            Value::Other => if f.tag >= 1 && f.tag <= 7 {
                None
            } else {
                Some(m)
            },
        }
    }

    fn encode(&self) -> (bytes: Vec<u8>) {
        let mut buf: Vec<u8> = Vec::new();
        push_varint(&mut buf, 1, self.op as u64);
        push_varint(&mut buf, 2, if self.ok {
            1
        } else {
            0
        });
        push_varint(&mut buf, 3, self.error as u64);
        push_message(&mut buf, 4, &self.release);
        push_bytes(&mut buf, 5, self.active_root.as_slice());
        push_varint(&mut buf, 6, self.active_index);
        push_varint(&mut buf, 7, self.status as u64);
        buf
    }
}

/// [`ApplianceResponse`]: what is written is read back as the same message.
#[verifier::rlimit(40)]
#[verifier::spinoff_prover]
pub proof fn lemma_appliance_response_round_trip(m: ApplianceResponseView, depth: nat)
    requires
        ApplianceResponse::encoded(m).len() <= u64::MAX,
        depth >= 3,
    ensures
        parsed::<ApplianceResponse>(
            ApplianceResponse::blank(),
            ApplianceResponse::encoded(m),
            depth,
        ) == Some(m),
{
    let m0 = ApplianceResponse::blank();
    let e0 = Seq::<u8>::empty();
    lemma_reads_nothing::<ApplianceResponse>(m0, depth);
    let v = m.op;
    assert((v as u64) as i32 == v && (v as u64 == 0 ==> v == 0)) by (bit_vector);
    let m1 = ApplianceResponseView { op: m.op, ..m0 };
    lemma_reads_varint::<ApplianceResponse>(m0, e0, m0, 1, m.op as u64, m1, depth);
    let e1 = e0 + varint_field(1, m.op as u64);
    let m2 = ApplianceResponseView { ok: m.ok, ..m1 };
    lemma_reads_varint::<ApplianceResponse>(m0, e1, m1, 2, bool_bits(m.ok), m2, depth);
    let e2 = e1 + varint_field(2, bool_bits(m.ok));
    let m3 = ApplianceResponseView { error: m.error, ..m2 };
    lemma_reads_varint::<ApplianceResponse>(m0, e2, m2, 3, m.error as u64, m3, depth);
    let e3 = e2 + varint_field(3, m.error as u64);
    if let Some(inner) = m.release {
        lemma_offline_release_round_trip(inner, (depth - 1) as nat);
    }
    let m4 = ApplianceResponseView { release: m.release, ..m3 };
    lemma_reads_message::<ApplianceResponse, OfflineRelease>(m0, e3, m3, 4, m.release, m4, depth);
    let e4 = e3 + message_field::<OfflineRelease>(4, m.release);
    let m5 = ApplianceResponseView { active_root: m.active_root, ..m4 };
    assert(m.active_root.len() == 0 ==> m.active_root =~= Seq::<u8>::empty());
    lemma_reads_bytes::<ApplianceResponse>(m0, e4, m4, 5, m.active_root, m5, depth);
    let e5 = e4 + bytes_field(5, m.active_root);
    let m6 = ApplianceResponseView { active_index: m.active_index, ..m5 };
    lemma_reads_varint::<ApplianceResponse>(m0, e5, m5, 6, m.active_index, m6, depth);
    let e6 = e5 + varint_field(6, m.active_index);
    let m7 = ApplianceResponseView { status: m.status, ..m6 };
    lemma_reads_varint::<ApplianceResponse>(m0, e6, m6, 7, m.status as u64, m7, depth);
    let e7 = e6 + varint_field(7, m.status as u64);
    lemma_reads_whole::<ApplianceResponse>(m0, e7, m7, depth);
}

} // verus!
