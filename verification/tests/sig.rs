//! The one-time witness signature.
use anchor_core::hash::h;
use anchor_core::sig::{chain, WotsBlake3, N, SIG_LEN};
use anchor_core::tropic::WitnessSig;

#[test]
fn sign_verify_roundtrip() {
    let seed = [7u8; 32];
    let (sk, pk) = WotsBlake3::keygen(&seed);
    assert_eq!(sk, seed.to_vec());
    assert_eq!(pk.len(), 32);
    let d = h("test/digest", &[b"hello"]);
    let sig = WotsBlake3::sign(&sk, &d);
    assert_eq!(sig.len(), SIG_LEN);
    assert!(WotsBlake3::verify(&pk, &d, &sig));
}

#[test]
fn rejects_wrong_digest_tampered_sig_and_pk() {
    let seed = [9u8; 32];
    let (sk, pk) = WotsBlake3::keygen(&seed);
    let d = h("test/digest", &[b"msg"]);
    let sig = WotsBlake3::sign(&sk, &d);

    // Wrong digest.
    let d2 = h("test/digest", &[b"other"]);
    assert!(!WotsBlake3::verify(&pk, &d2, &sig));

    // Tampered signature.
    let mut sig_bad = sig.clone();
    sig_bad[0] ^= 0xFF;
    assert!(!WotsBlake3::verify(&pk, &d, &sig_bad));

    // Wrong public key.
    let (_, pk2) = WotsBlake3::keygen(&[10u8; 32]);
    assert!(!WotsBlake3::verify(&pk2, &d, &sig));

    // Wrong-length inputs.
    assert!(!WotsBlake3::verify(&pk, &d, &sig[..SIG_LEN - 1]));
    assert!(!WotsBlake3::verify(&[0u8; 31], &d, &sig));
}

#[test]
fn deterministic_from_seed() {
    let seed = [3u8; 32];
    let (_, pk_a) = WotsBlake3::keygen(&seed);
    let (_, pk_b) = WotsBlake3::keygen(&seed);
    assert_eq!(pk_a, pk_b, "keygen must be deterministic from the seed");
    let d = h("test/digest", &[b"x"]);
    assert_eq!(WotsBlake3::sign(&seed, &d), WotsBlake3::sign(&seed, &d));
}

#[test]
fn forgery_to_a_higher_digit_is_rejected() {
    // Advancing a revealed chain forward (raising a message digit) must fail
    // because the checksum digit would need to go backward (a preimage).
    let seed = [1u8; 32];
    let (_, pk) = WotsBlake3::keygen(&seed);
    // Pick a digest whose first nibble is < w-1 so it can be advanced.
    let mut d = h("test/digest", &[b"forge"]);
    d[0] &= 0x0f; // high nibble 0 -> advanceable
    let sig = WotsBlake3::sign(&seed, &d);
    // Forge: advance chain 0 one step (claim digit+1) without fixing checksum.
    let mut forged = sig.clone();
    let mut c0 = [0u8; N];
    c0.copy_from_slice(&forged[..N]);
    let c0_adv = chain(c0, 1);
    forged[..N].copy_from_slice(&c0_adv);
    let mut d_forged = d;
    d_forged[0] = (d_forged[0] & 0x0f) | (((d[0] >> 4) + 1) << 4);
    assert!(
        !WotsBlake3::verify(&pk, &d_forged, &forged),
        "checksum must defeat a forward-advanced forgery"
    );
}
