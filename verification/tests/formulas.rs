//! Exact values of the byte-level formulas.
use anchor_core::appliance::{zeroize, zeroize_array, zeroize_vec};
use anchor_core::domain;
use anchor_core::hash::{h, kdf, preimage};
use anchor_core::root_advance::{
    cert_message, enc_transition, pk_hash, transition_digest, witness_input, witness_key_material,
    OwnedTransition,
};
use anchor_core::sig::{chain, chain_secret, compress, digits, WotsBlake3, LEN};
use anchor_core::tropic::WitnessSig;
use anchor_core::util::{
    append, ct_eq_32, length_le, push_var, to_array_32, u16_le, u32_le, u32_of_le, u64_le,
};

fn transition() -> OwnedTransition {
    OwnedTransition {
        relationship_id: [1; 32],
        object_id: [2; 32],
        sender_device_id: [3; 32],
        recipient_device_id: [4; 32],
        prev_root: [5; 32],
        next_root: [6; 32],
        anchor_counter: 0x0102030405060708,
        next_anchor_counter: 0x0102030405060709,
        action_type: 0x0A0B0C0D,
        action_fields: vec![7, 8, 9],
        payload_hash: [10; 32],
        old_leaf_proof: vec![],
        new_leaf_proof: vec![0xCD; 300],
        authority_policy_hash: [11; 32],
    }
}

fn bytes_of(hex: &str) -> Vec<u8> {
    let digits: Vec<u32> = hex.chars().map(|c| c.to_digit(16).unwrap()).collect();
    digits.chunks(2).map(|p| (p[0] * 16 + p[1]) as u8).collect()
}

#[test]
fn little_endian_integers() {
    assert_eq!(u16_le(0x1234), [0x34, 0x12]);
    assert_eq!(u32_le(0x12345678), [0x78, 0x56, 0x34, 0x12]);
    assert_eq!(u64_le(0x0102030405060708), [8, 7, 6, 5, 4, 3, 2, 1]);
    assert_eq!(u64_le(u64::MAX), [0xFF; 8]);
    assert_eq!(u32_of_le(&[0x78, 0x56, 0x34, 0x12]), 0x12345678);
    assert_eq!(u32_of_le(&[0xFF; 4]), u32::MAX);
    assert_eq!(length_le(&[0; 258]), [2, 1, 0, 0]);
}

#[test]
fn variable_length_fields_have_a_four_byte_length() {
    let mut buf = vec![9];
    push_var(&mut buf, &[5, 6]);
    assert_eq!(buf, vec![9, 2, 0, 0, 0, 5, 6]);
    let mut buf = Vec::new();
    push_var(&mut buf, &[0xEE; 70_000]);
    assert_eq!(buf[..4], [0x70, 0x11, 0x01, 0x00]);
    assert_eq!(buf.len(), 70_004);
    let mut buf = vec![1];
    append(&mut buf, &[2, 3]);
    assert_eq!(buf, vec![1, 2, 3]);
}

#[test]
fn variable_length_fields_do_not_alias() {
    let mut ab_c = Vec::new();
    push_var(&mut ab_c, b"ab");
    push_var(&mut ab_c, b"c");
    let mut a_bc = Vec::new();
    push_var(&mut a_bc, b"a");
    push_var(&mut a_bc, b"bc");
    assert_ne!(ab_c, a_bc);
}

#[test]
fn equality_sees_every_byte() {
    let a = [7u8; 32];
    assert!(ct_eq_32(&a, &[7u8; 32]));
    for i in 0..32 {
        let mut b = a;
        b[i] ^= 0x80;
        assert!(!ct_eq_32(&a, &b));
    }
    assert_eq!(to_array_32(&[3; 32]), [3; 32]);
}

#[test]
fn hash_is_blake3() {
    assert_eq!(
        h("", &[]).to_vec(),
        bytes_of("af1349b9f5f9a1a6a0404dea36dcc9499bcb25c9adc112b7cc9a93cae41f3262")
    );
    assert_eq!(
        h("abc", &[b"de", b"", b"f"]),
        *blake3::hash(b"abcdef").as_bytes()
    );
    assert_ne!(h("abc", &[b"def"]).to_vec(), b"abcdef".to_vec());
    assert_eq!(preimage("abc", &[b"de", b"", b"f"]), b"abcdef".to_vec());
}

#[test]
fn derivation_is_keyed_blake3() {
    let key: [u8; 32] = *b"whats the Elvish word for friend";
    assert_eq!(
        kdf(&key, "", &[]).to_vec(),
        bytes_of("92b2b75604ed3c761f9d6f62392c8a9227ad0ea3f09573e783f1498a4ed60d26")
    );
    assert_eq!(
        kdf(&key, "abc", &[b"de", b"f"]),
        *blake3::keyed_hash(&key, b"abcdef").as_bytes()
    );
    assert_ne!(kdf(&[0; 32], "abc", &[]), kdf(&[1; 32], "abc", &[]));
}

#[test]
fn transition_encoding_in_full() {
    let t = transition();
    let mut expected: Vec<u8> = Vec::new();
    for b in [1u8, 2, 3, 4, 5, 6] {
        expected.extend_from_slice(&[b; 32]);
    }
    expected.extend_from_slice(&[8, 7, 6, 5, 4, 3, 2, 1]);
    expected.extend_from_slice(&[9, 7, 6, 5, 4, 3, 2, 1]);
    expected.extend_from_slice(&[0x0D, 0x0C, 0x0B, 0x0A]);
    expected.extend_from_slice(&[3, 0, 0, 0, 7, 8, 9]);
    expected.extend_from_slice(&[10; 32]);
    expected.extend_from_slice(&[0, 0, 0, 0]);
    expected.extend_from_slice(&[0x2C, 1, 0, 0]);
    expected.extend_from_slice(&[0xCD; 300]);
    expected.extend_from_slice(&[11; 32]);
    assert_eq!(enc_transition(&t.as_transition()), expected);

    let mut tagged = b"DSM/root-advance/transition-digest/v1".to_vec();
    tagged.extend_from_slice(&expected);
    assert_eq!(transition_digest(&t.as_transition()), *blake3::hash(&tagged).as_bytes());
}

#[test]
fn witness_input_and_key_in_full() {
    let t = transition();
    let (d, anchor, challenge, w) = ([0xD0; 32], [0xA0; 32], [0xC0; 32], [0x77; 32]);
    let mut m = b"DSM/tropic/root-advance-input/v1".to_vec();
    m.extend_from_slice(&[5; 32]);
    m.extend_from_slice(&[6; 32]);
    m.extend_from_slice(&t.anchor_counter.to_le_bytes());
    m.extend_from_slice(&t.next_anchor_counter.to_le_bytes());
    m.extend_from_slice(&d);
    m.extend_from_slice(&[4; 32]);
    m.extend_from_slice(&[2; 32]);
    m.extend_from_slice(&[11; 32]);
    m.extend_from_slice(&anchor);
    m.extend_from_slice(&[0x34, 0x12]);
    m.extend_from_slice(&challenge);
    let x = witness_input(&t.as_transition(), &d, &anchor, 0x1234, &challenge);
    assert_eq!(x, *blake3::hash(&m).as_bytes());

    let k = witness_key_material(&w, &x, &t.as_transition(), &anchor, 0x1234);
    let mut m = b"DSM/tropic/root-advance-witness-key/v1".to_vec();
    m.extend_from_slice(&x);
    m.extend_from_slice(&[5; 32]);
    m.extend_from_slice(&[6; 32]);
    m.extend_from_slice(&t.anchor_counter.to_le_bytes());
    m.extend_from_slice(&t.next_anchor_counter.to_le_bytes());
    m.extend_from_slice(&anchor);
    m.extend_from_slice(&[0x34, 0x12]);
    m.extend_from_slice(&[11; 32]);
    assert_eq!(k, *blake3::keyed_hash(&w, &m).as_bytes());
    assert_ne!(k, witness_key_material(&[0x78; 32], &x, &t.as_transition(), &anchor, 0x1234));
    assert_ne!(k, witness_key_material(&w, &d, &t.as_transition(), &anchor, 0x1234));
    assert_ne!(k, witness_key_material(&w, &x, &t.as_transition(), &anchor, 0x1235));
}

#[test]
fn certificate_message_in_full() {
    let t = transition();
    let (d, x, p, anchor, challenge) =
        ([0xD0; 32], [0xE0; 32], [0xF0; 32], [0xA0; 32], [0xC0; 32]);
    let mut m = b"DSM/root-advance/cert-message/v1".to_vec();
    m.extend_from_slice(&[5; 32]);
    m.extend_from_slice(&[6; 32]);
    m.extend_from_slice(&t.anchor_counter.to_le_bytes());
    m.extend_from_slice(&t.next_anchor_counter.to_le_bytes());
    m.extend_from_slice(&d);
    m.extend_from_slice(&x);
    m.extend_from_slice(&p);
    m.extend_from_slice(&[4; 32]);
    m.extend_from_slice(&[2; 32]);
    m.extend_from_slice(&[11; 32]);
    m.extend_from_slice(&anchor);
    m.extend_from_slice(&[0x34, 0x12]);
    m.extend_from_slice(&challenge);
    assert_eq!(
        cert_message(&t.as_transition(), &d, &x, &p, &anchor, 0x1234, &challenge),
        *blake3::hash(&m).as_bytes()
    );
    let mut m = b"DSM/tropic/pk-hash/v1".to_vec();
    m.extend_from_slice(&[1, 2, 3]);
    assert_eq!(pk_hash(&[1, 2, 3]), *blake3::hash(&m).as_bytes());
}

#[test]
fn digits_and_their_checksum() {
    let got = digits(&[0x12; 32]);
    assert_eq!(got.len(), LEN);
    for i in 0..32 {
        assert_eq!(got[2 * i], 1);
        assert_eq!(got[2 * i + 1], 2);
    }
    // 32 * (14 + 13) == 864 == 0x360
    assert_eq!(got[64..], [3, 6, 0]);
    assert_eq!(digits(&[0xFF; 32])[64..], [0, 0, 0]);
    // 64 * 15 == 960 == 0x3C0
    assert_eq!(digits(&[0x00; 32])[64..], [3, 12, 0]);
}

#[test]
fn chains_add_up() {
    let x = [0x21; 32];
    assert_eq!(chain(x, 0), x);
    assert_eq!(chain(x, 1), h("DSM/anchor/wots-chain/v1", &[&x]));
    assert_eq!(chain(chain(x, 4), 7), chain(x, 11));
    let seed = [0x42; 32];
    assert_eq!(chain_secret(&seed, 66), kdf(&seed, "DSM/anchor/wots-sk/v1", &[&[66, 0]]));
    assert_eq!(compress(&[1, 2, 3]), h("DSM/anchor/wots-pk/v1", &[&[1, 2, 3]]));
}

#[test]
fn public_key_is_the_compression_of_the_tops() {
    let seed = [0x42; 32];
    let mut tops = Vec::new();
    for i in 0..LEN {
        tops.extend_from_slice(&chain(chain_secret(&seed, i), 15));
    }
    assert_eq!(WotsBlake3::keygen(&seed).1, compress(&tops).to_vec());
}

#[test]
fn of_two_digests_each_has_a_lower_digit() {
    let a = digits(&[0x12; 32]);
    let mut other = [0x12; 32];
    other[5] = 0x13;
    let b = digits(&other);
    assert!((0..LEN).any(|i| a[i] < b[i]));
    assert!((0..LEN).any(|i| b[i] < a[i]));
}

#[test]
fn tags_are_no_beginnings_of_each_other() {
    let tags = [
        domain::TRANSITION_DIGEST_V1,
        domain::ROOT_ADVANCE_INPUT_V1,
        domain::ROOT_ADVANCE_WITNESS_KEY_V1,
        domain::PK_HASH_V1,
        domain::CERT_MESSAGE_V1,
        domain::WOTS_CHAIN_V1,
        domain::WOTS_SK_V1,
        domain::WOTS_PK_V1,
    ];
    for (i, a) in tags.iter().enumerate() {
        for (j, b) in tags.iter().enumerate() {
            assert!(i == j || !b.starts_with(a));
        }
    }
}

#[test]
fn secrets_are_wiped() {
    let mut v = vec![1, 2, 3];
    zeroize(&mut v);
    assert_eq!(v, vec![0, 0, 0]);
    let mut v = vec![1, 2, 3];
    zeroize_vec(&mut v);
    assert!(v.is_empty());
    let mut a = [9u8; 32];
    zeroize_array(&mut a);
    assert_eq!(a, [0u8; 32]);
}
