//! The objects of one root advance: the transition package, its digest `D`, the witness input
//! `X`, the witness signing seed `K`, the public-key handle `P_hw`, the certificate message `M`,
//! and the release that carries them.
//!
//! The witness binds the parent root, the next root, both indices, `D`, the recipient, the object,
//! the policy, the anchor, the slot and the receiver challenge. Each object has one encoder, which
//! the producer and the verifier share.
use crate::domain;
use crate::hash::{blake3_hash, blake3_keyed_hash, concat, h, h_spec, kdf, kdf_spec, views};
use crate::util::{
    append, le_bytes, lemma_le_bytes_injective, lemma_le_bytes_len, lemma_pow256,
    lemma_var_bytes_prefix_free, push_var, u16_le, u32_le, u64_le, var_bytes,
};
use vstd::prelude::*;
use vstd::slice::slice_to_vec;
use vstd::string::*;

verus! {

/// The contents of a transition package.
#[verifier::ext_equal]
pub struct TransitionView {
    pub relationship_id: Seq<u8>,
    pub object_id: Seq<u8>,
    pub sender_device_id: Seq<u8>,
    pub recipient_device_id: Seq<u8>,
    pub prev_root: Seq<u8>,
    pub next_root: Seq<u8>,
    pub anchor_counter: u64,
    pub next_anchor_counter: u64,
    pub action_type: u32,
    pub action_fields: Seq<u8>,
    pub payload_hash: Seq<u8>,
    pub old_leaf_proof: Seq<u8>,
    pub new_leaf_proof: Seq<u8>,
    pub authority_policy_hash: Seq<u8>,
}

impl TransitionView {
    /// The fixed-width fields have 32 bytes each.
    pub open spec fn shaped(self) -> bool {
        &&& self.relationship_id.len() == 32
        &&& self.object_id.len() == 32
        &&& self.sender_device_id.len() == 32
        &&& self.recipient_device_id.len() == 32
        &&& self.prev_root.len() == 32
        &&& self.next_root.len() == 32
        &&& self.payload_hash.len() == 32
        &&& self.authority_policy_hash.len() == 32
    }

    /// The variable-length fields are short enough for a four-byte length.
    pub open spec fn encodable(self) -> bool {
        &&& self.action_fields.len() <= u32::MAX
        &&& self.old_leaf_proof.len() <= u32::MAX
        &&& self.new_leaf_proof.len() <= u32::MAX
    }
}

/// The transition package: what a receiver needs to verify the advance from `prev_root` to
/// `next_root` and to bind the witness. The appliance does not verify the tree proofs.
pub struct Transition<'a> {
    pub relationship_id: &'a [u8; 32],
    pub object_id: &'a [u8; 32],
    pub sender_device_id: &'a [u8; 32],
    pub recipient_device_id: &'a [u8; 32],
    /// Parent root.
    pub prev_root: &'a [u8; 32],
    /// Proposed successor root.
    pub next_root: &'a [u8; 32],
    /// Anchor index that the parent state commits to.
    pub anchor_counter: u64,
    /// The index after the advance.
    pub next_anchor_counter: u64,
    pub action_type: u32,
    pub action_fields: &'a [u8],
    pub payload_hash: &'a [u8; 32],
    /// Tree proof of the spent leaf at the parent root.
    pub old_leaf_proof: &'a [u8],
    /// Tree proof of the produced leaf at the next root.
    pub new_leaf_proof: &'a [u8],
    pub authority_policy_hash: &'a [u8; 32],
}

impl<'a> View for Transition<'a> {
    type V = TransitionView;

    open spec fn view(&self) -> TransitionView {
        TransitionView {
            relationship_id: self.relationship_id@,
            object_id: self.object_id@,
            sender_device_id: self.sender_device_id@,
            recipient_device_id: self.recipient_device_id@,
            prev_root: self.prev_root@,
            next_root: self.next_root@,
            anchor_counter: self.anchor_counter,
            next_anchor_counter: self.next_anchor_counter,
            action_type: self.action_type,
            action_fields: self.action_fields@,
            payload_hash: self.payload_hash@,
            old_leaf_proof: self.old_leaf_proof@,
            new_leaf_proof: self.new_leaf_proof@,
            authority_policy_hash: self.authority_policy_hash@,
        }
    }
}

/// The canonical bytes of a transition package: fixed-width fields as they are, integers
/// little-endian, variable-length fields behind a four-byte length.
pub open spec fn enc_transition_spec(t: TransitionView) -> Seq<u8> {
    t.relationship_id + t.object_id + t.sender_device_id + t.recipient_device_id + t.prev_root
        + t.next_root + le_bytes(t.anchor_counter as nat, 8) + le_bytes(
        t.next_anchor_counter as nat,
        8,
    ) + le_bytes(t.action_type as nat, 4) + var_bytes(t.action_fields) + t.payload_hash
        + var_bytes(t.old_leaf_proof) + var_bytes(t.new_leaf_proof) + t.authority_policy_hash
}

/// Transition digest `D`.
pub open spec fn transition_digest_spec(t: TransitionView) -> Seq<u8> {
    h_spec(domain::TRANSITION_DIGEST_V1, enc_transition_spec(t))
}

/// What the witness input hashes.
pub open spec fn witness_input_bytes(
    t: TransitionView,
    d: Seq<u8>,
    anchor_id: Seq<u8>,
    q: u16,
    receiver_challenge: Seq<u8>,
) -> Seq<u8> {
    t.prev_root + t.next_root + le_bytes(t.anchor_counter as nat, 8) + le_bytes(
        t.next_anchor_counter as nat,
        8,
    ) + d + t.recipient_device_id + t.object_id + t.authority_policy_hash + anchor_id + le_bytes(
        q as nat,
        2,
    ) + receiver_challenge
}

/// Witness input `X`.
pub open spec fn witness_input_spec(
    t: TransitionView,
    d: Seq<u8>,
    anchor_id: Seq<u8>,
    q: u16,
    receiver_challenge: Seq<u8>,
) -> Seq<u8> {
    h_spec(
        domain::ROOT_ADVANCE_INPUT_V1,
        witness_input_bytes(t, d, anchor_id, q, receiver_challenge),
    )
}

/// What the derivation of the witness signing seed absorbs.
pub open spec fn witness_key_bytes(
    x: Seq<u8>,
    t: TransitionView,
    anchor_id: Seq<u8>,
    q: u16,
) -> Seq<u8> {
    x + t.prev_root + t.next_root + le_bytes(t.anchor_counter as nat, 8) + le_bytes(
        t.next_anchor_counter as nat,
        8,
    ) + anchor_id + le_bytes(q as nat, 2) + t.authority_policy_hash
}

/// Witness signing seed `K`, keyed by the witness output `w`.
pub open spec fn witness_key_spec(
    w: Seq<u8>,
    x: Seq<u8>,
    t: TransitionView,
    anchor_id: Seq<u8>,
    q: u16,
) -> Seq<u8> {
    kdf_spec(w, domain::ROOT_ADVANCE_WITNESS_KEY_V1, witness_key_bytes(x, t, anchor_id, q))
}

/// Public-key handle `P_hw`.
pub open spec fn pk_hash_spec(pk_hw: Seq<u8>) -> Seq<u8> {
    h_spec(domain::PK_HASH_V1, pk_hw)
}

/// What the certificate message hashes.
pub open spec fn cert_message_bytes(
    t: TransitionView,
    d: Seq<u8>,
    x: Seq<u8>,
    p_hw: Seq<u8>,
    anchor_id: Seq<u8>,
    q: u16,
    receiver_challenge: Seq<u8>,
) -> Seq<u8> {
    t.prev_root + t.next_root + le_bytes(t.anchor_counter as nat, 8) + le_bytes(
        t.next_anchor_counter as nat,
        8,
    ) + d + x + p_hw + t.recipient_device_id + t.object_id + t.authority_policy_hash + anchor_id
        + le_bytes(q as nat, 2) + receiver_challenge
}

/// Certificate message `M`.
pub open spec fn cert_message_spec(
    t: TransitionView,
    d: Seq<u8>,
    x: Seq<u8>,
    p_hw: Seq<u8>,
    anchor_id: Seq<u8>,
    q: u16,
    receiver_challenge: Seq<u8>,
) -> Seq<u8> {
    h_spec(
        domain::CERT_MESSAGE_V1,
        cert_message_bytes(t, d, x, p_hw, anchor_id, q, receiver_challenge),
    )
}

/// The fixed-width fields in front of the action fields.
spec fn enc_header(t: TransitionView) -> Seq<u8> {
    t.relationship_id + t.object_id + t.sender_device_id + t.recipient_device_id + t.prev_root
        + t.next_root + le_bytes(t.anchor_counter as nat, 8) + le_bytes(
        t.next_anchor_counter as nat,
        8,
    ) + le_bytes(t.action_type as nat, 4)
}

/// The action fields and what follows them.
spec fn enc_body(t: TransitionView) -> Seq<u8> {
    var_bytes(t.action_fields) + (t.payload_hash + (var_bytes(t.old_leaf_proof) + (var_bytes(
        t.new_leaf_proof,
    ) + t.authority_policy_hash)))
}

proof fn lemma_enc_header_layout(t: TransitionView)
    requires
        t.shaped(),
    ensures
        enc_header(t).len() == 212,
        enc_header(t).subrange(0, 32) == t.relationship_id,
        enc_header(t).subrange(32, 64) == t.object_id,
        enc_header(t).subrange(64, 96) == t.sender_device_id,
        enc_header(t).subrange(96, 128) == t.recipient_device_id,
        enc_header(t).subrange(128, 160) == t.prev_root,
        enc_header(t).subrange(160, 192) == t.next_root,
        enc_header(t).subrange(192, 200) == le_bytes(t.anchor_counter as nat, 8),
        enc_header(t).subrange(200, 208) == le_bytes(t.next_anchor_counter as nat, 8),
        enc_header(t).subrange(208, 212) == le_bytes(t.action_type as nat, 4),
{
    lemma_le_bytes_len(t.anchor_counter as nat, 8);
    lemma_le_bytes_len(t.next_anchor_counter as nat, 8);
    lemma_le_bytes_len(t.action_type as nat, 4);
}

proof fn lemma_enc_splits(t: TransitionView)
    requires
        t.shaped(),
    ensures
        enc_transition_spec(t).take(212) == enc_header(t),
        enc_transition_spec(t).skip(212) == enc_body(t),
{
    lemma_enc_header_layout(t);
    assert(enc_transition_spec(t) =~= enc_header(t) + enc_body(t));
    assert((enc_header(t) + enc_body(t)).take(212) =~= enc_header(t));
    assert((enc_header(t) + enc_body(t)).skip(212) =~= enc_body(t));
}

proof fn lemma_indices_agree(a: u64, b: u64)
    requires
        le_bytes(a as nat, 8) == le_bytes(b as nat, 8),
    ensures
        a == b,
{
    lemma_pow256();
    lemma_le_bytes_injective(a as nat, b as nat, 8);
}

proof fn lemma_slots_agree(a: u16, b: u16)
    requires
        le_bytes(a as nat, 2) == le_bytes(b as nat, 2),
    ensures
        a == b,
{
    lemma_pow256();
    lemma_le_bytes_injective(a as nat, b as nat, 2);
}

proof fn lemma_enc_body_injective(a: TransitionView, b: TransitionView)
    requires
        a.shaped(),
        b.shaped(),
        a.encodable(),
        b.encodable(),
        enc_body(a) == enc_body(b),
    ensures
        a.action_fields == b.action_fields,
        a.payload_hash == b.payload_hash,
        a.old_leaf_proof == b.old_leaf_proof,
        a.new_leaf_proof == b.new_leaf_proof,
        a.authority_policy_hash == b.authority_policy_hash,
{
    let last_a = var_bytes(a.new_leaf_proof) + a.authority_policy_hash;
    let last_b = var_bytes(b.new_leaf_proof) + b.authority_policy_hash;
    let old_a = var_bytes(a.old_leaf_proof) + last_a;
    let old_b = var_bytes(b.old_leaf_proof) + last_b;
    let rest_a = a.payload_hash + old_a;
    let rest_b = b.payload_hash + old_b;
    lemma_var_bytes_prefix_free(a.action_fields, rest_a, b.action_fields, rest_b);
    assert(rest_a.take(32) =~= a.payload_hash);
    assert(rest_b.take(32) =~= b.payload_hash);
    assert(rest_a.skip(32) =~= old_a);
    assert(rest_b.skip(32) =~= old_b);
    lemma_var_bytes_prefix_free(a.old_leaf_proof, last_a, b.old_leaf_proof, last_b);
    lemma_var_bytes_prefix_free(
        a.new_leaf_proof,
        a.authority_policy_hash,
        b.new_leaf_proof,
        b.authority_policy_hash,
    );
}

/// The canonical encoding is injective: two packages have the same bytes only if they are equal.
/// So no two of them share a digest preimage, however their variable-length fields are cut.
pub proof fn lemma_enc_transition_injective(a: TransitionView, b: TransitionView)
    requires
        a.shaped(),
        b.shaped(),
        a.encodable(),
        b.encodable(),
        enc_transition_spec(a) == enc_transition_spec(b),
    ensures
        a == b,
{
    lemma_enc_splits(a);
    lemma_enc_splits(b);
    lemma_enc_header_layout(a);
    lemma_enc_header_layout(b);
    lemma_indices_agree(a.anchor_counter, b.anchor_counter);
    lemma_indices_agree(a.next_anchor_counter, b.next_anchor_counter);
    lemma_pow256();
    lemma_le_bytes_injective(a.action_type as nat, b.action_type as nat, 4);
    lemma_enc_body_injective(a, b);
}

proof fn lemma_witness_input_layout(
    t: TransitionView,
    d: Seq<u8>,
    anchor_id: Seq<u8>,
    q: u16,
    receiver_challenge: Seq<u8>,
)
    requires
        t.shaped(),
        d.len() == 32,
        anchor_id.len() == 32,
        receiver_challenge.len() == 32,
    ensures
        witness_input_bytes(t, d, anchor_id, q, receiver_challenge).len() == 274,
        witness_input_bytes(t, d, anchor_id, q, receiver_challenge).subrange(0, 32) == t.prev_root,
        witness_input_bytes(t, d, anchor_id, q, receiver_challenge).subrange(32, 64) == t.next_root,
        witness_input_bytes(t, d, anchor_id, q, receiver_challenge).subrange(64, 72)
            == le_bytes(t.anchor_counter as nat, 8),
        witness_input_bytes(t, d, anchor_id, q, receiver_challenge).subrange(72, 80)
            == le_bytes(t.next_anchor_counter as nat, 8),
        witness_input_bytes(t, d, anchor_id, q, receiver_challenge).subrange(80, 112) == d,
        witness_input_bytes(t, d, anchor_id, q, receiver_challenge).subrange(112, 144)
            == t.recipient_device_id,
        witness_input_bytes(t, d, anchor_id, q, receiver_challenge).subrange(144, 176)
            == t.object_id,
        witness_input_bytes(t, d, anchor_id, q, receiver_challenge).subrange(176, 208)
            == t.authority_policy_hash,
        witness_input_bytes(t, d, anchor_id, q, receiver_challenge).subrange(208, 240) == anchor_id,
        witness_input_bytes(t, d, anchor_id, q, receiver_challenge).subrange(240, 242)
            == le_bytes(q as nat, 2),
        witness_input_bytes(t, d, anchor_id, q, receiver_challenge).subrange(242, 274)
            == receiver_challenge,
{
    lemma_le_bytes_len(t.anchor_counter as nat, 8);
    lemma_le_bytes_len(t.next_anchor_counter as nat, 8);
    lemma_le_bytes_len(q as nat, 2);
}

/// The witness input binds every field that it hashes: equal preimages come from equal fields.
pub proof fn lemma_witness_input_binds(
    a: TransitionView,
    da: Seq<u8>,
    anchor_a: Seq<u8>,
    qa: u16,
    challenge_a: Seq<u8>,
    b: TransitionView,
    db: Seq<u8>,
    anchor_b: Seq<u8>,
    qb: u16,
    challenge_b: Seq<u8>,
)
    requires
        a.shaped(),
        b.shaped(),
        da.len() == 32,
        db.len() == 32,
        anchor_a.len() == 32,
        anchor_b.len() == 32,
        challenge_a.len() == 32,
        challenge_b.len() == 32,
        witness_input_bytes(a, da, anchor_a, qa, challenge_a) == witness_input_bytes(
            b,
            db,
            anchor_b,
            qb,
            challenge_b,
        ),
    ensures
        a.prev_root == b.prev_root,
        a.next_root == b.next_root,
        a.anchor_counter == b.anchor_counter,
        a.next_anchor_counter == b.next_anchor_counter,
        da == db,
        a.recipient_device_id == b.recipient_device_id,
        a.object_id == b.object_id,
        a.authority_policy_hash == b.authority_policy_hash,
        anchor_a == anchor_b,
        qa == qb,
        challenge_a == challenge_b,
{
    lemma_witness_input_layout(a, da, anchor_a, qa, challenge_a);
    lemma_witness_input_layout(b, db, anchor_b, qb, challenge_b);
    lemma_indices_agree(a.anchor_counter, b.anchor_counter);
    lemma_indices_agree(a.next_anchor_counter, b.next_anchor_counter);
    lemma_slots_agree(qa, qb);
}

proof fn lemma_witness_key_layout(x: Seq<u8>, t: TransitionView, anchor_id: Seq<u8>, q: u16)
    requires
        t.shaped(),
        x.len() == 32,
        anchor_id.len() == 32,
    ensures
        witness_key_bytes(x, t, anchor_id, q).len() == 178,
        witness_key_bytes(x, t, anchor_id, q).subrange(0, 32) == x,
        witness_key_bytes(x, t, anchor_id, q).subrange(32, 64) == t.prev_root,
        witness_key_bytes(x, t, anchor_id, q).subrange(64, 96) == t.next_root,
        witness_key_bytes(x, t, anchor_id, q).subrange(96, 104)
            == le_bytes(t.anchor_counter as nat, 8),
        witness_key_bytes(x, t, anchor_id, q).subrange(104, 112)
            == le_bytes(t.next_anchor_counter as nat, 8),
        witness_key_bytes(x, t, anchor_id, q).subrange(112, 144) == anchor_id,
        witness_key_bytes(x, t, anchor_id, q).subrange(144, 146) == le_bytes(q as nat, 2),
        witness_key_bytes(x, t, anchor_id, q).subrange(146, 178) == t.authority_policy_hash,
{
    lemma_le_bytes_len(t.anchor_counter as nat, 8);
    lemma_le_bytes_len(t.next_anchor_counter as nat, 8);
    lemma_le_bytes_len(q as nat, 2);
}

/// The signing seed binds every field that its derivation absorbs.
pub proof fn lemma_witness_key_binds(
    xa: Seq<u8>,
    a: TransitionView,
    anchor_a: Seq<u8>,
    qa: u16,
    xb: Seq<u8>,
    b: TransitionView,
    anchor_b: Seq<u8>,
    qb: u16,
)
    requires
        a.shaped(),
        b.shaped(),
        xa.len() == 32,
        xb.len() == 32,
        anchor_a.len() == 32,
        anchor_b.len() == 32,
        witness_key_bytes(xa, a, anchor_a, qa) == witness_key_bytes(xb, b, anchor_b, qb),
    ensures
        xa == xb,
        a.prev_root == b.prev_root,
        a.next_root == b.next_root,
        a.anchor_counter == b.anchor_counter,
        a.next_anchor_counter == b.next_anchor_counter,
        anchor_a == anchor_b,
        qa == qb,
        a.authority_policy_hash == b.authority_policy_hash,
{
    lemma_witness_key_layout(xa, a, anchor_a, qa);
    lemma_witness_key_layout(xb, b, anchor_b, qb);
    lemma_indices_agree(a.anchor_counter, b.anchor_counter);
    lemma_indices_agree(a.next_anchor_counter, b.next_anchor_counter);
    lemma_slots_agree(qa, qb);
}

proof fn lemma_cert_message_layout(
    t: TransitionView,
    d: Seq<u8>,
    x: Seq<u8>,
    p_hw: Seq<u8>,
    anchor_id: Seq<u8>,
    q: u16,
    receiver_challenge: Seq<u8>,
)
    requires
        t.shaped(),
        d.len() == 32,
        x.len() == 32,
        p_hw.len() == 32,
        anchor_id.len() == 32,
        receiver_challenge.len() == 32,
    ensures
        cert_message_bytes(t, d, x, p_hw, anchor_id, q, receiver_challenge).len() == 338,
        cert_message_bytes(t, d, x, p_hw, anchor_id, q, receiver_challenge).subrange(0, 32)
            == t.prev_root,
        cert_message_bytes(t, d, x, p_hw, anchor_id, q, receiver_challenge).subrange(32, 64)
            == t.next_root,
        cert_message_bytes(t, d, x, p_hw, anchor_id, q, receiver_challenge).subrange(64, 72)
            == le_bytes(t.anchor_counter as nat, 8),
        cert_message_bytes(t, d, x, p_hw, anchor_id, q, receiver_challenge).subrange(72, 80)
            == le_bytes(t.next_anchor_counter as nat, 8),
        cert_message_bytes(t, d, x, p_hw, anchor_id, q, receiver_challenge).subrange(80, 112) == d,
        cert_message_bytes(t, d, x, p_hw, anchor_id, q, receiver_challenge).subrange(112, 144) == x,
        cert_message_bytes(t, d, x, p_hw, anchor_id, q, receiver_challenge).subrange(144, 176)
            == p_hw,
        cert_message_bytes(t, d, x, p_hw, anchor_id, q, receiver_challenge).subrange(176, 208)
            == t.recipient_device_id,
        cert_message_bytes(t, d, x, p_hw, anchor_id, q, receiver_challenge).subrange(208, 240)
            == t.object_id,
        cert_message_bytes(t, d, x, p_hw, anchor_id, q, receiver_challenge).subrange(240, 272)
            == t.authority_policy_hash,
        cert_message_bytes(t, d, x, p_hw, anchor_id, q, receiver_challenge).subrange(272, 304)
            == anchor_id,
        cert_message_bytes(t, d, x, p_hw, anchor_id, q, receiver_challenge).subrange(304, 306)
            == le_bytes(q as nat, 2),
        cert_message_bytes(t, d, x, p_hw, anchor_id, q, receiver_challenge).subrange(306, 338)
            == receiver_challenge,
{
    lemma_le_bytes_len(t.anchor_counter as nat, 8);
    lemma_le_bytes_len(t.next_anchor_counter as nat, 8);
    lemma_le_bytes_len(q as nat, 2);
}

/// The certificate message binds every field that it hashes: equal preimages come from equal
/// fields, the receiver challenge among them.
pub proof fn lemma_cert_message_binds(
    a: TransitionView,
    da: Seq<u8>,
    xa: Seq<u8>,
    pa: Seq<u8>,
    anchor_a: Seq<u8>,
    qa: u16,
    challenge_a: Seq<u8>,
    b: TransitionView,
    db: Seq<u8>,
    xb: Seq<u8>,
    pb: Seq<u8>,
    anchor_b: Seq<u8>,
    qb: u16,
    challenge_b: Seq<u8>,
)
    requires
        a.shaped(),
        b.shaped(),
        da.len() == 32,
        db.len() == 32,
        xa.len() == 32,
        xb.len() == 32,
        pa.len() == 32,
        pb.len() == 32,
        anchor_a.len() == 32,
        anchor_b.len() == 32,
        challenge_a.len() == 32,
        challenge_b.len() == 32,
        cert_message_bytes(a, da, xa, pa, anchor_a, qa, challenge_a) == cert_message_bytes(
            b,
            db,
            xb,
            pb,
            anchor_b,
            qb,
            challenge_b,
        ),
    ensures
        a.prev_root == b.prev_root,
        a.next_root == b.next_root,
        a.anchor_counter == b.anchor_counter,
        a.next_anchor_counter == b.next_anchor_counter,
        da == db,
        xa == xb,
        pa == pb,
        a.recipient_device_id == b.recipient_device_id,
        a.object_id == b.object_id,
        a.authority_policy_hash == b.authority_policy_hash,
        anchor_a == anchor_b,
        qa == qb,
        challenge_a == challenge_b,
{
    lemma_cert_message_layout(a, da, xa, pa, anchor_a, qa, challenge_a);
    lemma_cert_message_layout(b, db, xb, pb, anchor_b, qb, challenge_b);
    lemma_indices_agree(a.anchor_counter, b.anchor_counter);
    lemma_indices_agree(a.next_anchor_counter, b.next_anchor_counter);
    lemma_slots_agree(qa, qb);
}

/// The canonical bytes of a transition package.
pub fn enc_transition(t: &Transition) -> (bytes: Vec<u8>)
    ensures
        bytes@ == enc_transition_spec(t@),
{
    let mut v: Vec<u8> = Vec::new();
    append(&mut v, t.relationship_id.as_slice());
    append(&mut v, t.object_id.as_slice());
    append(&mut v, t.sender_device_id.as_slice());
    append(&mut v, t.recipient_device_id.as_slice());
    append(&mut v, t.prev_root.as_slice());
    append(&mut v, t.next_root.as_slice());
    append(&mut v, u64_le(t.anchor_counter).as_slice());
    append(&mut v, u64_le(t.next_anchor_counter).as_slice());
    append(&mut v, u32_le(t.action_type).as_slice());
    push_var(&mut v, t.action_fields);
    append(&mut v, t.payload_hash.as_slice());
    push_var(&mut v, t.old_leaf_proof);
    push_var(&mut v, t.new_leaf_proof);
    append(&mut v, t.authority_policy_hash.as_slice());
    assert(v@ =~= enc_transition_spec(t@));
    v
}

/// Transition digest `D = H(tag || enc(transition))`.
pub fn transition_digest(t: &Transition) -> (d: [u8; 32])
    ensures
        d@ == transition_digest_spec(t@),
{
    let bytes: Vec<u8> = enc_transition(t);
    let fields: [&[u8]; 1] = [bytes.as_slice()];
    proof {
        reveal_with_fuel(concat, 2);
        assert(concat(views(fields@)) =~= bytes@);
    }
    h(domain::TRANSITION_DIGEST_V1, fields.as_slice())
}

/// Witness input `X`, which binds the whole advance.
pub fn witness_input(
    t: &Transition,
    d: &[u8; 32],
    anchor_id: &[u8; 32],
    q: u16,
    receiver_challenge: &[u8; 32],
) -> (x: [u8; 32])
    ensures
        x@ == witness_input_spec(t@, d@, anchor_id@, q, receiver_challenge@),
{
    let index: [u8; 8] = u64_le(t.anchor_counter);
    let next_index: [u8; 8] = u64_le(t.next_anchor_counter);
    let slot: [u8; 2] = u16_le(q);
    let fields: [&[u8]; 11] = [
        t.prev_root.as_slice(),
        t.next_root.as_slice(),
        index.as_slice(),
        next_index.as_slice(),
        d.as_slice(),
        t.recipient_device_id.as_slice(),
        t.object_id.as_slice(),
        t.authority_policy_hash.as_slice(),
        anchor_id.as_slice(),
        slot.as_slice(),
        receiver_challenge.as_slice(),
    ];
    proof {
        reveal_with_fuel(concat, 12);
        assert(concat(views(fields@)) =~= witness_input_bytes(
            t@,
            d@,
            anchor_id@,
            q,
            receiver_challenge@,
        ));
    }
    h(domain::ROOT_ADVANCE_INPUT_V1, fields.as_slice())
}

/// Witness signing seed `K`, keyed by the witness output `w`.
pub fn witness_key_material(
    w: &[u8; 32],
    x: &[u8; 32],
    t: &Transition,
    anchor_id: &[u8; 32],
    q: u16,
) -> (k: [u8; 32])
    ensures
        k@ == witness_key_spec(w@, x@, t@, anchor_id@, q),
{
    let index: [u8; 8] = u64_le(t.anchor_counter);
    let next_index: [u8; 8] = u64_le(t.next_anchor_counter);
    let slot: [u8; 2] = u16_le(q);
    let fields: [&[u8]; 8] = [
        x.as_slice(),
        t.prev_root.as_slice(),
        t.next_root.as_slice(),
        index.as_slice(),
        next_index.as_slice(),
        anchor_id.as_slice(),
        slot.as_slice(),
        t.authority_policy_hash.as_slice(),
    ];
    proof {
        reveal_with_fuel(concat, 9);
        assert(concat(views(fields@)) =~= witness_key_bytes(x@, t@, anchor_id@, q));
    }
    kdf(w, domain::ROOT_ADVANCE_WITNESS_KEY_V1, fields.as_slice())
}

/// Public-key handle `P_hw = H(tag || pk_hw)`.
pub fn pk_hash(pk_hw: &[u8]) -> (p_hw: [u8; 32])
    ensures
        p_hw@ == pk_hash_spec(pk_hw@),
{
    let fields: [&[u8]; 1] = [pk_hw];
    proof {
        reveal_with_fuel(concat, 2);
        assert(concat(views(fields@)) =~= pk_hw@);
    }
    h(domain::PK_HASH_V1, fields.as_slice())
}

/// Certificate message `M`: the digest that the witness signature covers.
pub fn cert_message(
    t: &Transition,
    d: &[u8; 32],
    x: &[u8; 32],
    p_hw: &[u8; 32],
    anchor_id: &[u8; 32],
    q: u16,
    receiver_challenge: &[u8; 32],
) -> (m: [u8; 32])
    ensures
        m@ == cert_message_spec(t@, d@, x@, p_hw@, anchor_id@, q, receiver_challenge@),
{
    let index: [u8; 8] = u64_le(t.anchor_counter);
    let next_index: [u8; 8] = u64_le(t.next_anchor_counter);
    let slot: [u8; 2] = u16_le(q);
    let fields: [&[u8]; 13] = [
        t.prev_root.as_slice(),
        t.next_root.as_slice(),
        index.as_slice(),
        next_index.as_slice(),
        d.as_slice(),
        x.as_slice(),
        p_hw.as_slice(),
        t.recipient_device_id.as_slice(),
        t.object_id.as_slice(),
        t.authority_policy_hash.as_slice(),
        anchor_id.as_slice(),
        slot.as_slice(),
        receiver_challenge.as_slice(),
    ];
    proof {
        reveal_with_fuel(concat, 14);
        assert(concat(views(fields@)) =~= cert_message_bytes(
            t@,
            d@,
            x@,
            p_hw@,
            anchor_id@,
            q,
            receiver_challenge@,
        ));
    }
    h(domain::CERT_MESSAGE_V1, fields.as_slice())
}

/// An owned transition package, kept in the live record and carried in the release.
#[derive(Clone)]
pub struct OwnedTransition {
    pub relationship_id: [u8; 32],
    pub object_id: [u8; 32],
    pub sender_device_id: [u8; 32],
    pub recipient_device_id: [u8; 32],
    pub prev_root: [u8; 32],
    pub next_root: [u8; 32],
    pub anchor_counter: u64,
    pub next_anchor_counter: u64,
    pub action_type: u32,
    pub action_fields: Vec<u8>,
    pub payload_hash: [u8; 32],
    pub old_leaf_proof: Vec<u8>,
    pub new_leaf_proof: Vec<u8>,
    pub authority_policy_hash: [u8; 32],
}

impl View for OwnedTransition {
    type V = TransitionView;

    open spec fn view(&self) -> TransitionView {
        TransitionView {
            relationship_id: self.relationship_id@,
            object_id: self.object_id@,
            sender_device_id: self.sender_device_id@,
            recipient_device_id: self.recipient_device_id@,
            prev_root: self.prev_root@,
            next_root: self.next_root@,
            anchor_counter: self.anchor_counter,
            next_anchor_counter: self.next_anchor_counter,
            action_type: self.action_type,
            action_fields: self.action_fields@,
            payload_hash: self.payload_hash@,
            old_leaf_proof: self.old_leaf_proof@,
            new_leaf_proof: self.new_leaf_proof@,
            authority_policy_hash: self.authority_policy_hash@,
        }
    }
}

impl OwnedTransition {
    /// A copy of a borrowed package.
    pub fn from(t: &Transition) -> (owned: Self)
        ensures
            owned@ == t@,
    {
        OwnedTransition {
            relationship_id: *t.relationship_id,
            object_id: *t.object_id,
            sender_device_id: *t.sender_device_id,
            recipient_device_id: *t.recipient_device_id,
            prev_root: *t.prev_root,
            next_root: *t.next_root,
            anchor_counter: t.anchor_counter,
            next_anchor_counter: t.next_anchor_counter,
            action_type: t.action_type,
            action_fields: slice_to_vec(t.action_fields),
            payload_hash: *t.payload_hash,
            old_leaf_proof: slice_to_vec(t.old_leaf_proof),
            new_leaf_proof: slice_to_vec(t.new_leaf_proof),
            authority_policy_hash: *t.authority_policy_hash,
        }
    }

    /// The package, borrowed.
    pub fn as_transition(&self) -> (t: Transition<'_>)
        ensures
            t@ == self@,
    {
        Transition {
            relationship_id: &self.relationship_id,
            object_id: &self.object_id,
            sender_device_id: &self.sender_device_id,
            recipient_device_id: &self.recipient_device_id,
            prev_root: &self.prev_root,
            next_root: &self.next_root,
            anchor_counter: self.anchor_counter,
            next_anchor_counter: self.next_anchor_counter,
            action_type: self.action_type,
            action_fields: self.action_fields.as_slice(),
            payload_hash: &self.payload_hash,
            old_leaf_proof: self.old_leaf_proof.as_slice(),
            new_leaf_proof: self.new_leaf_proof.as_slice(),
            authority_policy_hash: &self.authority_policy_hash,
        }
    }
}

/// The contents of a root-advance certificate.
#[verifier::ext_equal]
pub struct CertificateView {
    pub prev_root: Seq<u8>,
    pub next_root: Seq<u8>,
    pub anchor_counter: u64,
    pub next_anchor_counter: u64,
    pub transition_digest: Seq<u8>,
    pub witness_input: Seq<u8>,
    pub pk_hash: Seq<u8>,
    pub pk_hw: Seq<u8>,
    pub sigma: Seq<u8>,
    pub anchor_id: Seq<u8>,
    pub slot: u16,
    pub receiver_challenge: Seq<u8>,
}

/// The root-advance certificate.
#[derive(Clone)]
pub struct Certificate {
    pub prev_root: [u8; 32],
    pub next_root: [u8; 32],
    pub anchor_counter: u64,
    pub next_anchor_counter: u64,
    pub transition_digest: [u8; 32],
    pub witness_input: [u8; 32],
    pub pk_hash: [u8; 32],
    pub pk_hw: Vec<u8>,
    pub sigma: Vec<u8>,
    pub anchor_id: [u8; 32],
    pub slot: u16,
    pub receiver_challenge: [u8; 32],
}

impl View for Certificate {
    type V = CertificateView;

    open spec fn view(&self) -> CertificateView {
        CertificateView {
            prev_root: self.prev_root@,
            next_root: self.next_root@,
            anchor_counter: self.anchor_counter,
            next_anchor_counter: self.next_anchor_counter,
            transition_digest: self.transition_digest@,
            witness_input: self.witness_input@,
            pk_hash: self.pk_hash@,
            pk_hw: self.pk_hw@,
            sigma: self.sigma@,
            anchor_id: self.anchor_id@,
            slot: self.slot,
            receiver_challenge: self.receiver_challenge@,
        }
    }
}

/// The contents of counter evidence.
#[verifier::ext_equal]
pub struct CounterEvidenceView {
    pub anchor_id: Seq<u8>,
    pub enrolled_counter: u64,
    pub live_counter_claim: u64,
    pub derived_index_claim: u64,
    pub verifier_transcript: Seq<u8>,
}

/// Counter evidence. The receiver gets the authoritative counter value from the chip, by
/// authenticating `verifier_transcript`; the `*_claim` fields are untrusted conveniences, and the
/// acceptance predicate does not read them.
#[derive(Clone)]
pub struct CounterEvidence {
    pub anchor_id: [u8; 32],
    pub enrolled_counter: u64,
    /// The host's claim of the live counter `H`.
    pub live_counter_claim: u64,
    /// The host's claim of the index `H0 - H`.
    pub derived_index_claim: u64,
    pub verifier_transcript: Vec<u8>,
}

impl View for CounterEvidence {
    type V = CounterEvidenceView;

    open spec fn view(&self) -> CounterEvidenceView {
        CounterEvidenceView {
            anchor_id: self.anchor_id@,
            enrolled_counter: self.enrolled_counter,
            live_counter_claim: self.live_counter_claim,
            derived_index_claim: self.derived_index_claim,
            verifier_transcript: self.verifier_transcript@,
        }
    }
}

/// The contents of an exported release.
#[verifier::ext_equal]
pub struct OfflineReleaseView {
    pub transition: TransitionView,
    pub cert: CertificateView,
    pub counter: CounterEvidenceView,
}

/// The exported release: the package, the certificate and the counter evidence.
#[derive(Clone)]
pub struct OfflineRelease {
    pub transition: OwnedTransition,
    pub cert: Certificate,
    pub counter: CounterEvidence,
}

impl View for OfflineRelease {
    type V = OfflineReleaseView;

    open spec fn view(&self) -> OfflineReleaseView {
        OfflineReleaseView {
            transition: self.transition@,
            cert: self.cert@,
            counter: self.counter@,
        }
    }
}

/// The transition digest in full: BLAKE3 of the tag and every field of the package, in order.
pub proof fn lemma_transition_digest_in_full(t: TransitionView)
    ensures
        transition_digest_spec(t) == blake3_hash(
            domain::TRANSITION_DIGEST_V1.spec_bytes() + (t.relationship_id + t.object_id
                + t.sender_device_id + t.recipient_device_id + t.prev_root + t.next_root
                + le_bytes(t.anchor_counter as nat, 8) + le_bytes(t.next_anchor_counter as nat, 8)
                + le_bytes(t.action_type as nat, 4) + (le_bytes(t.action_fields.len(), 4)
                + t.action_fields) + t.payload_hash + (le_bytes(t.old_leaf_proof.len(), 4)
                + t.old_leaf_proof) + (le_bytes(t.new_leaf_proof.len(), 4) + t.new_leaf_proof)
                + t.authority_policy_hash),
        )@,
{
}

/// Where each field of a package stands in its canonical bytes.
pub proof fn lemma_enc_transition_layout(t: TransitionView)
    requires
        t.shaped(),
    ensures
        ({
            let e = enc_transition_spec(t);
            let action = 212 + 4 + t.action_fields.len() as int;
            let old_proof = action + 32 + 4 + t.old_leaf_proof.len() as int;
            let new_proof = old_proof + 4 + t.new_leaf_proof.len() as int;
            &&& e.len() == new_proof + 32
            &&& e.subrange(0, 32) == t.relationship_id
            &&& e.subrange(32, 64) == t.object_id
            &&& e.subrange(64, 96) == t.sender_device_id
            &&& e.subrange(96, 128) == t.recipient_device_id
            &&& e.subrange(128, 160) == t.prev_root
            &&& e.subrange(160, 192) == t.next_root
            &&& e.subrange(192, 200) == le_bytes(t.anchor_counter as nat, 8)
            &&& e.subrange(200, 208) == le_bytes(t.next_anchor_counter as nat, 8)
            &&& e.subrange(208, 212) == le_bytes(t.action_type as nat, 4)
            &&& e.subrange(212, action) == le_bytes(t.action_fields.len(), 4) + t.action_fields
            &&& e.subrange(action, action + 32) == t.payload_hash
            &&& e.subrange(action + 32, old_proof) == le_bytes(t.old_leaf_proof.len(), 4)
                + t.old_leaf_proof
            &&& e.subrange(old_proof, new_proof) == le_bytes(t.new_leaf_proof.len(), 4)
                + t.new_leaf_proof
            &&& e.subrange(new_proof, new_proof + 32) == t.authority_policy_hash
        }),
{
    lemma_enc_header_layout(t);
    lemma_enc_splits(t);
    let e = enc_transition_spec(t);
    let header = enc_header(t);
    let body = enc_body(t);
    let a = var_bytes(t.action_fields);
    let o = var_bytes(t.old_leaf_proof);
    let n = var_bytes(t.new_leaf_proof);
    lemma_le_bytes_len(t.action_fields.len(), 4);
    lemma_le_bytes_len(t.old_leaf_proof.len(), 4);
    lemma_le_bytes_len(t.new_leaf_proof.len(), 4);
    assert(e =~= header + body);
    assert forall|i: int, j: int| 0 <= i <= j <= 212 implies #[trigger] e.subrange(i, j)
        == header.subrange(i, j) by {
        assert(e.subrange(i, j) =~= header.subrange(i, j));
    }
    assert forall|i: int, j: int| 212 <= i <= j <= e.len() implies #[trigger] e.subrange(i, j)
        == body.subrange(i - 212, j - 212) by {
        assert(e.subrange(i, j) =~= body.subrange(i - 212, j - 212));
    }
    let i1 = a.len() as int;
    let i2 = i1 + 32;
    let i3 = i2 + o.len();
    let i4 = i3 + n.len();
    assert(body.subrange(0, i1) =~= a);
    assert(body.subrange(i1, i2) =~= t.payload_hash);
    assert(body.subrange(i2, i3) =~= o);
    assert(body.subrange(i3, i4) =~= n);
    assert(body.subrange(i4, i4 + 32) =~= t.authority_policy_hash);
}

/// The witness input in full: BLAKE3 of the tag and the fields that it binds, the receiver
/// challenge last.
pub proof fn lemma_witness_input_in_full(
    t: TransitionView,
    d: Seq<u8>,
    anchor_id: Seq<u8>,
    q: u16,
    receiver_challenge: Seq<u8>,
)
    ensures
        witness_input_spec(t, d, anchor_id, q, receiver_challenge) == blake3_hash(
            domain::ROOT_ADVANCE_INPUT_V1.spec_bytes() + (t.prev_root + t.next_root + le_bytes(
                t.anchor_counter as nat,
                8,
            ) + le_bytes(t.next_anchor_counter as nat, 8) + d + t.recipient_device_id
                + t.object_id + t.authority_policy_hash + anchor_id + le_bytes(q as nat, 2)
                + receiver_challenge),
        )@,
{
}

/// The signing seed in full: keyed BLAKE3 with the chip's witness output as the key, of the tag and
/// the fields that it binds.
pub proof fn lemma_witness_key_in_full(
    w: Seq<u8>,
    x: Seq<u8>,
    t: TransitionView,
    anchor_id: Seq<u8>,
    q: u16,
)
    ensures
        witness_key_spec(w, x, t, anchor_id, q) == blake3_keyed_hash(
            w,
            domain::ROOT_ADVANCE_WITNESS_KEY_V1.spec_bytes() + (x + t.prev_root + t.next_root
                + le_bytes(t.anchor_counter as nat, 8) + le_bytes(t.next_anchor_counter as nat, 8)
                + anchor_id + le_bytes(q as nat, 2) + t.authority_policy_hash),
        )@,
{
}

/// The public-key handle and the certificate message in full.
pub proof fn lemma_cert_message_in_full(
    t: TransitionView,
    d: Seq<u8>,
    x: Seq<u8>,
    pk_hw: Seq<u8>,
    p_hw: Seq<u8>,
    anchor_id: Seq<u8>,
    q: u16,
    receiver_challenge: Seq<u8>,
)
    ensures
        pk_hash_spec(pk_hw) == blake3_hash(domain::PK_HASH_V1.spec_bytes() + pk_hw)@,
        cert_message_spec(t, d, x, p_hw, anchor_id, q, receiver_challenge) == blake3_hash(
            domain::CERT_MESSAGE_V1.spec_bytes() + (t.prev_root + t.next_root + le_bytes(
                t.anchor_counter as nat,
                8,
            ) + le_bytes(t.next_anchor_counter as nat, 8) + d + x + p_hw + t.recipient_device_id
                + t.object_id + t.authority_policy_hash + anchor_id + le_bytes(q as nat, 2)
                + receiver_challenge),
        )@,
{
}

} // verus!
