//! The wire format: exact bytes, what is ignored, what is rejected, and round trips.
use anchor_core::proto::message::{
    merge_all, push_bytes, push_delimited, push_message, push_varint, Message,
};
use anchor_core::proto::wire::{read_field, read_key, read_value, skip_group, Value};
use anchor_core::proto::{
    arr32, decode_request, decode_response, encode_request, encode_response, pb, ProtoError,
};
use anchor_core::root_advance::{
    Certificate, CounterEvidence, OfflineRelease, OwnedTransition,
};

fn package() -> pb::TransitionPackage {
    pb::TransitionPackage {
        relationship_id: vec![1; 32],
        object_id: vec![2; 32],
        sender_device_id: vec![3; 32],
        recipient_device_id: vec![4; 32],
        prev_root: vec![5; 32],
        next_root: vec![6; 32],
        anchor_counter: 300,
        next_anchor_counter: 301,
        action_type: 7,
        action_fields: vec![8; 200],
        payload_hash: vec![9; 32],
        old_leaf_proof: vec![10; 40],
        new_leaf_proof: vec![],
        authority_policy_hash: vec![12; 32],
    }
}

fn release() -> OfflineRelease {
    OfflineRelease {
        transition: package().to_owned_transition().unwrap(),
        cert: Certificate {
            prev_root: [21; 32],
            next_root: [22; 32],
            anchor_counter: 23,
            next_anchor_counter: 24,
            transition_digest: [25; 32],
            witness_input: [26; 32],
            pk_hash: [27; 32],
            pk_hw: vec![28; 32],
            sigma: vec![29; 2144],
            anchor_id: [30; 32],
            slot: 0xFFFF,
            receiver_challenge: [31; 32],
        },
        counter: CounterEvidence {
            anchor_id: [32; 32],
            enrolled_counter: 33,
            live_counter_claim: 34,
            derived_index_claim: 35,
            verifier_transcript: vec![36; 5],
        },
    }
}

/// The same package, written field by field with the library that other peers use.
fn package_bytes(p: &pb::TransitionPackage) -> Vec<u8> {
    let mut b = Vec::new();
    let fields = [
        (1, &p.relationship_id),
        (2, &p.object_id),
        (3, &p.sender_device_id),
        (4, &p.recipient_device_id),
        (5, &p.prev_root),
        (6, &p.next_root),
    ];
    for (tag, v) in fields {
        prost::encoding::bytes::encode(tag, v, &mut b);
    }
    prost::encoding::uint64::encode(7, &p.anchor_counter, &mut b);
    prost::encoding::uint64::encode(8, &p.next_anchor_counter, &mut b);
    prost::encoding::uint32::encode(9, &p.action_type, &mut b);
    prost::encoding::bytes::encode(10, &p.action_fields, &mut b);
    prost::encoding::bytes::encode(11, &p.payload_hash, &mut b);
    prost::encoding::bytes::encode(12, &p.old_leaf_proof, &mut b);
    prost::encoding::bytes::encode(14, &p.authority_policy_hash, &mut b);
    b
}

fn decode_package(b: &[u8]) -> Option<pb::TransitionPackage> {
    merge_all(pb::TransitionPackage::default(), b, 100)
}

#[test]
fn fields_have_their_bytes() {
    let mut b = Vec::new();
    push_varint(&mut b, 1, 150);
    assert_eq!(b, vec![0x08, 0x96, 0x01]);
    let mut b = Vec::new();
    push_varint(&mut b, 16, 1);
    assert_eq!(b, vec![0x80, 0x01, 0x01]);
    let mut b = vec![7];
    push_varint(&mut b, 1, 0);
    push_bytes(&mut b, 2, &[]);
    assert_eq!(b, vec![7]);
    push_bytes(&mut b, 2, b"testing");
    assert_eq!(b, b"\x07\x12\x07testing".to_vec());
    let mut b = Vec::new();
    push_delimited(&mut b, 2, &[]);
    assert_eq!(b, vec![0x12, 0x00]);
    let mut b = Vec::new();
    push_message::<pb::CounterEvidence>(&mut b, 3, &None);
    assert!(b.is_empty());
    push_message(&mut b, 3, &Some(pb::CounterEvidence::default()));
    assert_eq!(b, vec![0x1A, 0x00]);
}

#[test]
fn requests_have_their_bytes() {
    let status = pb::ApplianceRequest { op: pb::Op::Status as i32, ..Default::default() };
    assert_eq!(encode_request(&status), vec![0x08, 0x05]);
    let bare = pb::ApplianceRequest::default();
    assert!(encode_request(&bare).is_empty());
    let negative = pb::ApplianceRequest { op: -1, ..Default::default() };
    let mut expected = vec![0x08];
    expected.extend_from_slice(&[0xFF; 9]);
    expected.push(0x01);
    assert_eq!(encode_request(&negative), expected);
    assert_eq!(decode_request(&expected).unwrap().op, -1);
    let challenge = pb::ApplianceRequest { receiver_challenge: vec![1, 2], ..Default::default() };
    assert_eq!(encode_request(&challenge), vec![0x1A, 0x02, 1, 2]);
}

#[test]
fn packages_are_written_as_other_peers_write_them() {
    let p = package();
    assert_eq!(p.encode(), package_bytes(&p));
    let req = pb::ApplianceRequest {
        op: pb::Op::Prepare as i32,
        transition: Some(p.clone()),
        receiver_challenge: vec![0x55; 32],
    };
    let mut expected = Vec::new();
    prost::encoding::int32::encode(1, &req.op, &mut expected);
    prost::encoding::bytes::encode(2, &package_bytes(&p), &mut expected);
    prost::encoding::bytes::encode(3, &req.receiver_challenge, &mut expected);
    assert_eq!(encode_request(&req), expected);
}

#[test]
fn requests_survive_the_wire() {
    let req = pb::ApplianceRequest {
        op: pb::Op::Prepare as i32,
        transition: Some(package()),
        receiver_challenge: vec![0x55; 32],
    };
    assert_eq!(decode_request(&encode_request(&req)).unwrap(), req);
    let bare = pb::ApplianceRequest::default();
    assert_eq!(decode_request(&encode_request(&bare)).unwrap(), bare);
    let empty = pb::ApplianceRequest {
        transition: Some(pb::TransitionPackage::default()),
        ..Default::default()
    };
    assert_eq!(decode_request(&encode_request(&empty)).unwrap(), empty);
}

#[test]
fn responses_survive_the_wire() {
    let resp = pb::ApplianceResponse {
        op: 3,
        ok: true,
        error: 103,
        release: Some(release().to_pb()),
        active_root: vec![1; 32],
        active_index: u64::MAX,
        status: 2,
    };
    let bytes = encode_response(&resp);
    let back = decode_response(&bytes).unwrap();
    assert_eq!(back, resp);
    let rel = back.release.unwrap().to_release().unwrap();
    assert_eq!(rel.cert.slot, 0xFFFF);
    assert_eq!(rel.cert.sigma, vec![29; 2144]);
    assert_eq!(rel.transition.action_fields, vec![8; 200]);
    assert_eq!(rel.counter.verifier_transcript, vec![36; 5]);
    assert_eq!(rel.to_pb(), release().to_pb());
}

#[test]
fn the_last_scalar_counts_and_messages_merge() {
    // op twice
    assert_eq!(decode_request(&[0x08, 0x01, 0x08, 0x02]).unwrap().op, 2);
    // the package in two halves: anchor_counter = 5, then next_anchor_counter = 6
    let req = decode_request(&[0x12, 0x02, 0x38, 0x05, 0x12, 0x02, 0x40, 0x06]).unwrap();
    let t = req.transition.unwrap();
    assert_eq!(t.anchor_counter, 5);
    assert_eq!(t.next_anchor_counter, 6);
    // a byte string is replaced, not extended
    let req = decode_request(&[0x1A, 0x02, 1, 2, 0x1A, 0x01, 3]).unwrap();
    assert_eq!(req.receiver_challenge, vec![3]);
}

#[test]
fn numbers_are_cut_to_their_width() {
    // action_type, an unsigned number of 32 bits, from one of 33
    let p = decode_package(&[0x48, 0x85, 0x80, 0x80, 0x80, 0x10]).unwrap();
    assert_eq!(p.action_type, 5);
    // any number but zero is true
    let resp = decode_response(&[0x10, 0x02]).unwrap();
    assert!(resp.ok);
}

#[test]
fn unknown_fields_are_ignored() {
    let known = [0x08, 0x05];
    let unknown: [&[u8]; 6] = [
        &[0x78, 0x01],                                 // number
        &[0x79, 1, 2, 3, 4, 5, 6, 7, 8],               // eight bytes
        &[0x7A, 0x02, 1, 2],                           // byte string
        &[0x7D, 1, 2, 3, 4],                           // four bytes
        &[0x7B, 0x08, 0x01, 0x7C],                     // group
        &[0x7B, 0x0B, 0x12, 0x01, 9, 0x0C, 0x7C],      // group in a group
    ];
    for extra in unknown {
        let mut b = extra.to_vec();
        b.extend_from_slice(&known);
        assert_eq!(decode_request(&b).unwrap().op, 5);
        // truncated anywhere, it is an error
        for n in 1..extra.len() {
            assert_eq!(decode_request(&extra[..n]).unwrap_err(), ProtoError::Decode);
        }
    }
}

#[test]
fn malformed_bytes_are_rejected() {
    let bad: [&[u8]; 14] = [
        &[0xFF, 0xFF, 0xFF],                           // unfinished key
        &[0x00, 0x01],                                 // tag zero
        &[0x0E, 0x01],                                 // wire type six
        &[0x0F, 0x01],                                 // wire type seven
        &[0x0C],                                       // end of no group
        &[0x7C],                                       // end of no group, unknown tag
        &[0x7B, 0x08, 0x01, 0x74],                     // end of another group
        &[0x0A, 0x01, 0x01],                           // op as a byte string
        &[0x10, 0x01],                                 // package as a number
        &[0x19, 1, 2, 3, 4, 5, 6, 7, 8],               // challenge as eight bytes
        &[0x1A, 0x05, 1, 2],                           // longer than the frame
        &[0x12, 0x02, 0x3A, 0x05],                     // nested, longer than its message
        &[0x08, 0xFF, 0xFF, 0xFF, 0xFF, 0xFF, 0xFF, 0xFF, 0xFF, 0xFF, 0x02], // over 64 bits
        &[0x88, 0x80, 0x80, 0x80, 0x80, 0x01, 0x01],   // key over 32 bits
    ];
    for b in bad {
        assert_eq!(decode_request(b).unwrap_err(), ProtoError::Decode);
    }
}

#[test]
fn varints_of_any_length_are_read() {
    // 1, written in ten bytes
    let b = [0x08, 0x81, 0x80, 0x80, 0x80, 0x80, 0x80, 0x80, 0x80, 0x80, 0x00];
    assert_eq!(decode_request(&b).unwrap().op, 1);
    for v in [0u64, 1, 127, 128, 16383, 16384, u32::MAX as u64, u64::MAX] {
        let mut b = Vec::new();
        push_varint(&mut b, 6, v);
        assert_eq!(decode_response(&b).unwrap().active_index, v);
        assert_eq!(b.is_empty(), v == 0);
    }
}

#[test]
fn nesting_is_bounded() {
    // groups within groups, closed again
    let nested = |n: usize| -> Vec<u8> {
        let mut b = vec![0x7B; n];
        b.extend_from_slice(&vec![0x7C; n]);
        b
    };
    assert!(decode_request(&nested(100)).is_ok());
    assert!(decode_request(&nested(101)).is_err());
    for n in [99, 100, 101, 102] {
        let b = nested(n);
        let mut rest: &[u8] = &b;
        let (tag, wire_type) = prost::encoding::decode_key(&mut rest).unwrap();
        let skipped = prost::encoding::skip_field(
            wire_type,
            tag,
            &mut rest,
            prost::encoding::DecodeContext::default(),
        );
        assert_eq!(skipped.is_ok(), decode_request(&b).is_ok());
    }
}

#[test]
fn readers_hand_back_the_rest() {
    let b = [0x1A, 0x02, 7, 8, 9];
    let (tag, wire_type, rest) = read_key(&b).unwrap();
    assert_eq!((tag, wire_type, rest), (3, 2, &b[1..]));
    let (value, rest) = read_value(tag, wire_type, rest, 1).unwrap();
    assert!(matches!(value, Value::Bytes([7, 8])));
    assert_eq!(rest, [9]);
    assert!(read_value(tag, wire_type, &b[1..], 0).is_none());
    let (f, rest) = read_field(&[0x08, 0x2A, 5], 1).unwrap();
    assert!(f.tag == 1 && matches!(f.value, Value::Varint(42)));
    assert_eq!(rest, [5]);
    assert_eq!(skip_group(15, &[0x08, 0x01, 0x7C, 6], 2).unwrap(), [6]);
    assert!(skip_group(14, &[0x08, 0x01, 0x7C, 6], 2).is_none());
}

#[test]
fn operations_have_their_numbers() {
    let ops = [
        pb::Op::Unspecified,
        pb::Op::Prepare,
        pb::Op::Commit,
        pb::Op::Emit,
        pb::Op::Finalize,
        pb::Op::Status,
        pb::Op::Cancel,
    ];
    for (i, op) in ops.into_iter().enumerate() {
        assert_eq!(op as i32, i as i32);
        assert_eq!(op.to_wire(), i as i32);
        assert_eq!(pb::Op::try_from(i as i32), Ok(op));
    }
    assert_eq!(pb::Op::try_from(7), Err(ProtoError::BadOp));
    assert_eq!(pb::Op::try_from(-1), Err(ProtoError::BadOp));
}

#[test]
fn conversions_reject_what_does_not_fit() {
    assert_eq!(arr32(&[1; 32]), Ok([1; 32]));
    assert_eq!(arr32(&[1; 31]), Err(ProtoError::BadLength));
    assert_eq!(arr32(&[1; 33]), Err(ProtoError::BadLength));

    let mut p = package();
    p.payload_hash.pop();
    assert_eq!(p.to_owned_transition().err(), Some(ProtoError::BadLength));

    let mut m = release().to_pb();
    m.counter = None;
    assert_eq!(m.to_release().err(), Some(ProtoError::MissingField));
    let mut m = release().to_pb();
    m.cert = None;
    assert_eq!(m.to_release().err(), Some(ProtoError::MissingField));
    let mut m = release().to_pb();
    m.transition = None;
    assert_eq!(m.to_release().err(), Some(ProtoError::MissingField));

    let mut m = release().to_pb();
    if let Some(c) = &mut m.cert {
        c.slot = 0x1_0000;
    }
    assert_eq!(m.to_release().err(), Some(ProtoError::OutOfRange));
    if let Some(ev) = &mut m.counter {
        ev.anchor_id.push(0);
    }
    assert_eq!(m.to_release().err(), Some(ProtoError::BadLength));
}

#[test]
fn packages_survive_their_conversion() {
    let owned: OwnedTransition = package().to_owned_transition().unwrap();
    assert_eq!(owned.to_pb(), package());
    assert_eq!(OwnedTransition::from(&owned.as_transition()).to_pb(), package());
}
