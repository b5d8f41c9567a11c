//! A Winternitz one-time signature over BLAKE3: the witness signature of one root advance.
//!
//! The witness key signs exactly one digest, the certificate message, so a one-time scheme is
//! enough. It is hash-based and deterministic from the 32-byte seed, which is also the secret key.
//!
//! Parameters: 32-byte chain elements, four-bit digits, 64 message digits and 3 checksum digits,
//! hence 67 chains. A signature has `67 * 32 = 2144` bytes; the public key is the 32-byte hash of
//! the 67 chain tops.
use crate::domain;
use crate::hash::{
    blake3_hash, blake3_keyed_hash, concat, h, h_spec, kdf, kdf_spec, lemma_concat_blocks,
    lemma_concat_push, views,
};
use crate::tropic::WitnessSig;
use crate::util::{append, ct_eq_32, le_bytes, to_array_32, u16_le};
use vstd::prelude::*;
use vstd::slice::slice_subrange;
use vstd::string::*;

verus! {

/// Values that a digit takes.
pub const W: u32 = 16;

/// Message digits: two for each byte of the digest.
pub const LEN1: usize = 64;

/// Checksum digits: the checksum is at most `64 * 15`, below `16 * 16 * 16`.
pub const LEN2: usize = 3;

/// Chains, one for each digit.
pub const LEN: usize = LEN1 + LEN2;

/// Bytes of a chain element.
pub const N: usize = 32;

/// Bytes of a signature.
pub const SIG_LEN: usize = LEN * N;

/// `x` after `steps` applications of the chain step `F(x) = H(tag || x)`.
pub open spec fn chain_spec(x: Seq<u8>, steps: nat) -> Seq<u8>
    decreases steps,
{
    if steps == 0 {
        x
    } else {
        h_spec(domain::WOTS_CHAIN_V1, chain_spec(x, (steps - 1) as nat))
    }
}

/// The message digits of a digest: the high half of each byte, then its low half.
pub open spec fn message_digits(d: Seq<u8>) -> Seq<u8> {
    Seq::new(
        2 * d.len(),
        |i: int|
            if i % 2 == 0 {
                d[i / 2] / 16
            } else {
                d[i / 2] % 16
            },
    )
}

/// The sum of what each digit lacks to the largest one.
pub open spec fn checksum(digits: Seq<u8>) -> int
    decreases digits.len(),
{
    if digits.len() == 0 {
        0
    } else {
        checksum(digits.drop_last()) + (15 - digits.last())
    }
}

/// All digits of a digest: the message digits and three big-endian digits of their checksum.
pub open spec fn digits_spec(d: Seq<u8>) -> Seq<u8> {
    let c = checksum(message_digits(d));
    message_digits(d) + seq![(c / 256) as u8, (c / 16 % 16) as u8, (c % 16) as u8]
}

/// The secret of the `i`-th chain: `KDF(seed, tag || i)`.
pub open spec fn chain_secret_spec(seed: Seq<u8>, i: int) -> Seq<u8> {
    kdf_spec(seed, domain::WOTS_SK_V1, le_bytes(i as nat, 2))
}

/// Every chain advanced from its secret to its last element.
pub open spec fn tops_spec(seed: Seq<u8>) -> Seq<Seq<u8>> {
    Seq::new(67, |i: int| chain_spec(chain_secret_spec(seed, i), 15))
}

/// The public key that stands for a list of chain tops.
pub open spec fn compress_spec(tops: Seq<Seq<u8>>) -> Seq<u8> {
    h_spec(domain::WOTS_PK_V1, concat(tops))
}

/// Every chain advanced from its secret to the digit of `digest` at its place.
pub open spec fn revealed_spec(seed: Seq<u8>, digest: Seq<u8>) -> Seq<Seq<u8>> {
    Seq::new(
        67,
        |i: int| chain_spec(chain_secret_spec(seed, i), digits_spec(digest)[i] as nat),
    )
}

/// The signature of `digest` under `seed`.
pub open spec fn sign_spec(seed: Seq<u8>, digest: Seq<u8>) -> Seq<u8> {
    concat(revealed_spec(seed, digest))
}

/// The chain tops to which a signature leads: its `i`-th block advanced by what the digit of
/// `digest` lacks to the last element.
pub open spec fn completed_spec(digest: Seq<u8>, sig: Seq<u8>) -> Seq<Seq<u8>> {
    Seq::new(
        67,
        |i: int|
            chain_spec(
                sig.subrange(32 * i, 32 * i + 32),
                (15 - digits_spec(digest)[i]) as nat,
            ),
    )
}

/// Whether `sig` is a signature of `digest` under `pk`.
pub open spec fn verify_spec(pk: Seq<u8>, digest: Seq<u8>, sig: Seq<u8>) -> bool {
    &&& pk.len() == 32
    &&& sig.len() == SIG_LEN
    &&& compress_spec(completed_spec(digest, sig)) == pk
}

proof fn lemma_chain_len(x: Seq<u8>, steps: nat)
    requires
        x.len() == 32,
    ensures
        chain_spec(x, steps).len() == 32,
{
}

/// Advancing a chain by `a` and then by `b` steps is advancing it by `a + b` steps.
pub proof fn lemma_chain_adds(x: Seq<u8>, a: nat, b: nat)
    ensures
        chain_spec(chain_spec(x, a), b) == chain_spec(x, a + b),
    decreases b,
{
    if b > 0 {
        lemma_chain_adds(x, a, (b - 1) as nat);
    }
}

proof fn lemma_checksum_bounds(digits: Seq<u8>)
    requires
        forall|i: int| 0 <= i < digits.len() ==> #[trigger] digits[i] <= 15,
    ensures
        0 <= checksum(digits) <= 15 * digits.len(),
    decreases digits.len(),
{
    if digits.len() > 0 {
        lemma_checksum_bounds(digits.drop_last());
    }
}

/// Every digit of a 32-byte digest is at most 15, and there are 67.
pub proof fn lemma_digits_bounds(d: Seq<u8>)
    requires
        d.len() == 32,
    ensures
        digits_spec(d).len() == 67,
        forall|i: int| 0 <= i < 67 ==> #[trigger] digits_spec(d)[i] <= 15,
        0 <= checksum(message_digits(d)) <= 960,
{
    lemma_checksum_bounds(message_digits(d));
}

/// Raising some digits and lowering none lowers the checksum.
proof fn lemma_checksum_monotonic(a: Seq<u8>, b: Seq<u8>)
    requires
        a.len() == b.len(),
        forall|i: int| 0 <= i < a.len() ==> a[i] <= b[i],
    ensures
        checksum(b) <= checksum(a),
        a != b ==> checksum(b) < checksum(a),
    decreases a.len(),
{
    if a.len() > 0 {
        lemma_checksum_monotonic(a.drop_last(), b.drop_last());
        if a.drop_last() == b.drop_last() && a.last() == b.last() {
            assert(a =~= a.drop_last().push(a.last()));
            assert(b =~= b.drop_last().push(b.last()));
        }
    } else {
        assert(a =~= b);
    }
}

/// Two digests with the same message digits are equal.
proof fn lemma_message_digits_injective(d: Seq<u8>, e: Seq<u8>)
    requires
        d.len() == e.len(),
        message_digits(d) == message_digits(e),
    ensures
        d == e,
{
    assert forall|k: int| 0 <= k < d.len() implies d[k] == e[k] by {
        assert(message_digits(d)[2 * k] == d[k] / 16);
        assert(message_digits(e)[2 * k] == e[k] / 16);
        assert(message_digits(d)[2 * k + 1] == d[k] % 16);
        assert(message_digits(e)[2 * k + 1] == e[k] % 16);
    }
    assert(d =~= e);
}

/// The checksum defeats forgery by advancing chains: of two different digests, each has a digit
/// below that of the other. So a signature of one never becomes a signature of the other by
/// moving chains forward only; some chain would have to be taken back.
pub proof fn lemma_some_digit_decreases(signed: Seq<u8>, forged: Seq<u8>)
    requires
        signed.len() == 32,
        forged.len() == 32,
        signed != forged,
    ensures
        exists|i: int| 0 <= i < 67 && digits_spec(forged)[i] < digits_spec(signed)[i],
{
    let a = digits_spec(signed);
    let b = digits_spec(forged);
    lemma_digits_bounds(signed);
    lemma_digits_bounds(forged);
    if forall|i: int| 0 <= i < 67 ==> a[i] <= b[i] {
        let ma = message_digits(signed);
        let mb = message_digits(forged);
        assert forall|i: int| 0 <= i < ma.len() implies ma[i] <= mb[i] by {
            assert(a[i] == ma[i] && b[i] == mb[i]);
        }
        lemma_checksum_monotonic(ma, mb);
        if ma == mb {
            lemma_message_digits_injective(signed, forged);
        }
        assert(checksum(mb) < checksum(ma));
        assert(a[64] <= b[64] && a[65] <= b[65] && a[66] <= b[66]);
        assert(false);
    }
}

/// The one-time signature round trip: what a seed signs verifies under its public key.
pub proof fn lemma_signature_verifies(seed: Seq<u8>, digest: Seq<u8>)
    requires
        digest.len() == 32,
    ensures
        verify_spec(compress_spec(tops_spec(seed)), digest, sign_spec(seed, digest)),
{
    let parts = revealed_spec(seed, digest);
    let sig = sign_spec(seed, digest);
    lemma_digits_bounds(digest);
    assert forall|i: int| 0 <= i < parts.len() implies (#[trigger] parts[i]).len() == 32 by {
        lemma_chain_len(chain_secret_spec(seed, i), digits_spec(digest)[i] as nat);
    }
    lemma_concat_blocks(parts);
    assert forall|i: int| 0 <= i < 67 implies completed_spec(digest, sig)[i] == tops_spec(
        seed,
    )[i] by {
        let digit = digits_spec(digest)[i];
        assert(sig.subrange(32 * i, 32 * i + 32) == parts[i]);
        lemma_chain_adds(chain_secret_spec(seed, i), digit as nat, (15 - digit) as nat);
    }
    assert(completed_spec(digest, sig) =~= tops_spec(seed));
}

/// The concatenation of a single field is the field.
proof fn lemma_concat_one(fields: Seq<&[u8]>)
    requires
        fields.len() == 1,
    ensures
        concat(views(fields)) == fields[0]@,
{
    reveal_with_fuel(concat, 2);
    assert(concat(views(fields)) =~= fields[0]@);
}

/// Advances a chain element by `steps` steps.
pub fn chain(x: [u8; 32], steps: u32) -> (y: [u8; 32])
    ensures
        y@ == chain_spec(x@, steps as nat),
{
    let mut y: [u8; 32] = x;
    for i in 0..steps
        invariant
            y@ == chain_spec(x@, i as nat),
    {
        let field: [&[u8]; 1] = [y.as_slice()];
        proof {
            lemma_concat_one(field@);
        }
        let next: [u8; 32] = h(domain::WOTS_CHAIN_V1, field.as_slice());
        y = next;
    }
    y
}

/// The digits of a 32-byte digest.
pub fn digits(d: &[u8; 32]) -> (out: Vec<u8>)
    ensures
        out@ == digits_spec(d@),
{
    let mut out: Vec<u8> = Vec::new();
    let mut csum: u32 = 0;
    for i in 0..32usize
        invariant
            out@ == message_digits(d@).take(2 * i),
            csum == checksum(out@),
            csum <= 30 * i,
    {
        let b: u8 = d[i];
        let high: u8 = b / 16;
        let low: u8 = b % 16;
        out.push(high);
        assert(out@.drop_last() =~= message_digits(d@).take(2 * i));
        csum = csum + ((W - 1) - high as u32);
        let ghost with_high = out@;
        assert(csum == checksum(with_high));
        out.push(low);
        assert(out@.drop_last() =~= with_high);
        csum = csum + ((W - 1) - low as u32);
        assert(csum == checksum(out@));
        assert(out@ =~= message_digits(d@).take(2 * (i + 1)));
    }
    assert(out@ =~= message_digits(d@));
    out.push((csum / 256) as u8);
    out.push((csum / 16 % 16) as u8);
    out.push((csum % 16) as u8);
    assert(out@ =~= digits_spec(d@));
    out
}

/// The secret of the `i`-th chain.
pub fn chain_secret(seed: &[u8; 32], i: usize) -> (secret: [u8; 32])
    requires
        i < LEN,
    ensures
        secret@ == chain_secret_spec(seed@, i as int),
{
    let index: [u8; 2] = u16_le(i as u16);
    let field: [&[u8]; 1] = [index.as_slice()];
    proof {
        lemma_concat_one(field@);
    }
    kdf(seed, domain::WOTS_SK_V1, field.as_slice())
}

/// The public key that stands for the concatenated chain tops.
pub fn compress(tops: &[u8]) -> (pk: [u8; 32])
    ensures
        pk@ == h_spec(domain::WOTS_PK_V1, tops@),
{
    let field: [&[u8]; 1] = [tops];
    proof {
        lemma_concat_one(field@);
    }
    h(domain::WOTS_PK_V1, field.as_slice())
}

/// The one-time signature scheme over BLAKE3.
pub struct WotsBlake3;

impl WitnessSig for WotsBlake3 {
    open spec fn spec_keygen(seed: Seq<u8>) -> (Seq<u8>, Seq<u8>) {
        (seed, compress_spec(tops_spec(seed)))
    }

    open spec fn spec_sign(sk: Seq<u8>, digest: Seq<u8>) -> Seq<u8> {
        sign_spec(sk.take(32), digest)
    }

    open spec fn spec_verify(pk: Seq<u8>, digest: Seq<u8>, sig: Seq<u8>) -> bool {
        verify_spec(pk, digest, sig)
    }

    open spec fn usable(sk: Seq<u8>) -> bool {
        sk.len() >= 32
    }

    proof fn signature_verifies(seed: Seq<u8>, digest: Seq<u8>) {
        assert(seed.take(32) =~= seed);
        lemma_signature_verifies(seed, digest);
    }

    /// The secret key is the seed; the public key is the hash of the chain tops.
    fn keygen(seed: &[u8; 32]) -> (keys: (Vec<u8>, Vec<u8>)) {
        let mut tops: Vec<u8> = Vec::new();
        let ghost all = tops_spec(seed@);
        assert(all.take(0) =~= Seq::empty());
        for i in 0..LEN
            invariant
                all == tops_spec(seed@),
                tops@ == concat(all.take(i as int)),
        {
            let secret: [u8; 32] = chain_secret(seed, i);
            let top: [u8; 32] = chain(secret, W - 1);
            append(&mut tops, top.as_slice());
            proof {
                lemma_concat_push(all.take(i as int), top@);
                assert(all.take(i + 1) =~= all.take(i as int).push(top@));
            }
        }
        assert(all.take(LEN as int) =~= all);
        let mut sk: Vec<u8> = Vec::new();
        append(&mut sk, seed.as_slice());
        let mut pk: Vec<u8> = Vec::new();
        let pk_bytes: [u8; 32] = compress(tops.as_slice());
        append(&mut pk, pk_bytes.as_slice());
        assert(sk@ =~= seed@);
        assert(pk@ =~= pk_bytes@);
        (sk, pk)
    }

    /// Each chain advanced from its secret to its digit.
    fn sign(sk: &[u8], digest: &[u8; 32]) -> (sig: Vec<u8>) {
        let seed: [u8; 32] = to_array_32(slice_subrange(sk, 0, 32));
        assert(seed@ =~= sk@.take(32));
        let dg: Vec<u8> = digits(digest);
        let mut sig: Vec<u8> = Vec::new();
        let ghost all = revealed_spec(seed@, digest@);
        proof {
            lemma_digits_bounds(digest@);
            assert(all.take(0) =~= Seq::empty());
        }
        for i in 0..LEN
            invariant
                dg@ == digits_spec(digest@),
                dg@.len() == 67,
                all == revealed_spec(seed@, digest@),
                sig@ == concat(all.take(i as int)),
        {
            let secret: [u8; 32] = chain_secret(&seed, i);
            let v: [u8; 32] = chain(secret, dg[i] as u32);
            append(&mut sig, v.as_slice());
            proof {
                lemma_concat_push(all.take(i as int), v@);
                assert(all.take(i + 1) =~= all.take(i as int).push(v@));
            }
        }
        assert(all.take(LEN as int) =~= all);
        sig
    }

    /// Recomputes the chain tops from the signature and the digits, and compares their hash.
    fn verify(pk: &[u8], digest: &[u8; 32], sig: &[u8]) -> (valid: bool) {
        if pk.len() != 32 || sig.len() != SIG_LEN {
            return false;
        }
        let dg: Vec<u8> = digits(digest);
        let mut tops: Vec<u8> = Vec::new();
        let ghost all = completed_spec(digest@, sig@);
        proof {
            lemma_digits_bounds(digest@);
            assert(all.take(0) =~= Seq::empty());
        }
        for i in 0..LEN
            invariant
                dg@ == digits_spec(digest@),
                dg@.len() == 67,
                forall|j: int| 0 <= j < 67 ==> #[trigger] dg@[j] <= 15,
                sig@.len() == SIG_LEN,
                all == completed_spec(digest@, sig@),
                tops@ == concat(all.take(i as int)),
        {
            let v: [u8; 32] = to_array_32(slice_subrange(sig, i * N, i * N + N));
            let top: [u8; 32] = chain(v, (W - 1) - dg[i] as u32);
            append(&mut tops, top.as_slice());
            proof {
                lemma_concat_push(all.take(i as int), top@);
                assert(all.take(i + 1) =~= all.take(i as int).push(top@));
            }
        }
        assert(all.take(LEN as int) =~= all);
        let expected: [u8; 32] = compress(tops.as_slice());
        ct_eq_32(&expected, &to_array_32(pk))
    }
}

/// The secret of the `i`-th chain is keyed BLAKE3 under the seed, of the tag and the two bytes of
/// `i`, low byte first.
pub proof fn lemma_chain_secret_in_full(seed: Seq<u8>, i: int)
    requires
        0 <= i < 67,
    ensures
        chain_secret_spec(seed, i) == blake3_keyed_hash(
            seed,
            domain::WOTS_SK_V1.spec_bytes() + seq![(i % 256) as u8, (i / 256) as u8],
        )@,
{
    reveal_with_fuel(le_bytes, 3);
    assert(le_bytes(i as nat, 2) =~= seq![(i % 256) as u8, (i / 256) as u8]);
}

/// No two chains share a derivation: their secrets are hashes of different messages under the seed.
pub proof fn lemma_chain_secrets_are_derived_apart(seed: Seq<u8>, i: int, j: int) -> (messages: (
    Seq<u8>,
    Seq<u8>,
))
    requires
        0 <= i < 67,
        0 <= j < 67,
        i != j,
    ensures
        messages.0 != messages.1,
        chain_secret_spec(seed, i) == blake3_keyed_hash(seed, messages.0)@,
        chain_secret_spec(seed, j) == blake3_keyed_hash(seed, messages.1)@,
{
    lemma_chain_secret_in_full(seed, i);
    lemma_chain_secret_in_full(seed, j);
    let tag = domain::WOTS_SK_V1.spec_bytes();
    let a = tag + seq![(i % 256) as u8, (i / 256) as u8];
    let b = tag + seq![(j % 256) as u8, (j / 256) as u8];
    assert(a[tag.len() as int] == i as u8);
    assert(b[tag.len() as int] == j as u8);
    (a, b)
}

/// A chain starts at its element, and each step hashes the tag and the element before.
pub proof fn lemma_chain_steps(x: Seq<u8>, steps: nat)
    ensures
        chain_spec(x, 0) == x,
        chain_spec(x, steps + 1) == blake3_hash(
            domain::WOTS_CHAIN_V1.spec_bytes() + chain_spec(x, steps),
        )@,
{
}

proof fn lemma_checksum_is_a_sum(digits: Seq<u8>)
    ensures
        checksum(digits) == digits.fold_left(0int, |sum: int, digit: u8| sum + (15 - digit)),
    decreases digits.len(),
{
    if digits.len() > 0 {
        lemma_checksum_is_a_sum(digits.drop_last());
    }
}

/// The digits of a digest, by what they add up to: two digits make each byte, and the three behind
/// them make the sum of what the others lack to 15. All are below 16.
pub proof fn lemma_digits_in_full(d: Seq<u8>)
    requires
        d.len() == 32,
    ensures
        digits_spec(d).len() == 67,
        forall|i: int| 0 <= i < 67 ==> #[trigger] digits_spec(d)[i] < 16,
        forall|k: int|
            0 <= k < 32 ==> #[trigger] d[k] == 16 * digits_spec(d)[2 * k] + digits_spec(d)[2 * k
                + 1],
        256 * digits_spec(d)[64] + 16 * digits_spec(d)[65] + digits_spec(d)[66] == digits_spec(
            d,
        ).take(64).fold_left(0int, |sum: int, digit: u8| sum + (15 - digit)),
{
    lemma_digits_bounds(d);
    assert(digits_spec(d).take(64) =~= message_digits(d));
    lemma_checksum_is_a_sum(message_digits(d));
    assert forall|k: int| 0 <= k < 32 implies #[trigger] d[k] == 16 * digits_spec(d)[2 * k]
        + digits_spec(d)[2 * k + 1] by {
        assert(message_digits(d)[2 * k] == d[k] / 16);
        assert(message_digits(d)[2 * k + 1] == d[k] % 16);
    }
}

/// Byte strings of 32-byte blocks are equal if their blocks are.
proof fn lemma_blocks_agree(a: Seq<u8>, b: Seq<u8>, n: int)
    requires
        0 <= n,
        a.len() == 32 * n,
        b.len() == 32 * n,
        forall|i: int|
            0 <= i < n ==> #[trigger] a.subrange(32 * i, 32 * i + 32) == b.subrange(
                32 * i,
                32 * i + 32,
            ),
    ensures
        a == b,
{
    assert forall|k: int| 0 <= k < a.len() implies a[k] == b[k] by {
        let i = k / 32;
        assert(a.subrange(32 * i, 32 * i + 32) == b.subrange(32 * i, 32 * i + 32));
        assert(a[k] == a.subrange(32 * i, 32 * i + 32)[k - 32 * i]);
        assert(b[k] == b.subrange(32 * i, 32 * i + 32)[k - 32 * i]);
    }
    assert(a =~= b);
}

/// The key pair of a seed: the secret key is the seed, and the public key is the hash of the tag
/// and all 67 chain tops, each 15 steps behind its own secret.
pub proof fn lemma_key_pair_in_full(seed: Seq<u8>) -> (tops: Seq<u8>)
    ensures
        WotsBlake3::spec_keygen(seed).0 == seed,
        WotsBlake3::spec_keygen(seed).1 == blake3_hash(domain::WOTS_PK_V1.spec_bytes() + tops)@,
        tops.len() == 67 * 32,
        forall|i: int|
            0 <= i < 67 ==> #[trigger] tops.subrange(32 * i, 32 * i + 32) == chain_spec(
                blake3_keyed_hash(
                    seed,
                    domain::WOTS_SK_V1.spec_bytes() + seq![(i % 256) as u8, (i / 256) as u8],
                )@,
                15,
            ),
{
    let parts = tops_spec(seed);
    assert forall|i: int| 0 <= i < parts.len() implies (#[trigger] parts[i]).len() == 32 by {
        lemma_chain_len(chain_secret_spec(seed, i), 15);
    }
    lemma_concat_blocks(parts);
    let tops = concat(parts);
    assert forall|i: int| 0 <= i < 67 implies #[trigger] tops.subrange(32 * i, 32 * i + 32)
        == chain_spec(
        blake3_keyed_hash(
            seed,
            domain::WOTS_SK_V1.spec_bytes() + seq![(i % 256) as u8, (i / 256) as u8],
        )@,
        15,
    ) by {
        lemma_chain_secret_in_full(seed, i);
        assert(parts[i] == chain_spec(chain_secret_spec(seed, i), 15));
    }
    tops
}

/// The signature of a digest: 67 blocks, the `i`-th as many steps behind the `i`-th secret as the
/// `i`-th digit says.
pub proof fn lemma_signature_in_full(sk: Seq<u8>, digest: Seq<u8>)
    requires
        WotsBlake3::usable(sk),
        digest.len() == 32,
    ensures
        sk.len() >= 32,
        WotsBlake3::spec_sign(sk, digest).len() == 67 * 32,
        forall|i: int|
            0 <= i < 67 ==> #[trigger] WotsBlake3::spec_sign(sk, digest).subrange(
                32 * i,
                32 * i + 32,
            ) == chain_spec(
                blake3_keyed_hash(
                    sk.take(32),
                    domain::WOTS_SK_V1.spec_bytes() + seq![(i % 256) as u8, (i / 256) as u8],
                )@,
                digits_spec(digest)[i] as nat,
            ),
{
    let seed = sk.take(32);
    let parts = revealed_spec(seed, digest);
    lemma_digits_bounds(digest);
    assert forall|i: int| 0 <= i < parts.len() implies (#[trigger] parts[i]).len() == 32 by {
        lemma_chain_len(chain_secret_spec(seed, i), digits_spec(digest)[i] as nat);
    }
    lemma_concat_blocks(parts);
    assert forall|i: int| 0 <= i < 67 implies #[trigger] WotsBlake3::spec_sign(
        sk,
        digest,
    ).subrange(32 * i, 32 * i + 32) == chain_spec(
        blake3_keyed_hash(
            seed,
            domain::WOTS_SK_V1.spec_bytes() + seq![(i % 256) as u8, (i / 256) as u8],
        )@,
        digits_spec(digest)[i] as nat,
    ) by {
        lemma_chain_secret_in_full(seed, i);
        assert(parts[i] == chain_spec(
            chain_secret_spec(seed, i),
            digits_spec(digest)[i] as nat,
        ));
    }
}

/// Verification: with `tops` the blocks of the signature, each advanced by what its digit lacks to
/// 15, the signature is valid exactly if it has 67 blocks and the public key is the hash of the tag
/// and `tops`.
pub proof fn lemma_verify_in_full(pk: Seq<u8>, digest: Seq<u8>, sig: Seq<u8>, tops: Seq<u8>)
    requires
        digest.len() == 32,
        tops.len() == 67 * 32,
        forall|i: int|
            0 <= i < 67 ==> #[trigger] tops.subrange(32 * i, 32 * i + 32) == chain_spec(
                sig.subrange(32 * i, 32 * i + 32),
                (15 - digits_spec(digest)[i]) as nat,
            ),
    ensures
        WotsBlake3::spec_verify(pk, digest, sig) <==> sig.len() == 67 * 32 && pk == blake3_hash(
            domain::WOTS_PK_V1.spec_bytes() + tops,
        )@,
{
    if sig.len() == 67 * 32 {
        lemma_digits_bounds(digest);
        let parts = completed_spec(digest, sig);
        assert forall|i: int| 0 <= i < parts.len() implies (#[trigger] parts[i]).len() == 32 by {
            lemma_chain_len(
                sig.subrange(32 * i, 32 * i + 32),
                (15 - digits_spec(digest)[i]) as nat,
            );
        }
        lemma_concat_blocks(parts);
        assert forall|i: int| 0 <= i < 67 implies #[trigger] concat(parts).subrange(
            32 * i,
            32 * i + 32,
        ) == tops.subrange(32 * i, 32 * i + 32) by {
            assert(parts[i] == chain_spec(
                sig.subrange(32 * i, 32 * i + 32),
                (15 - digits_spec(digest)[i]) as nat,
            ));
        }
        lemma_blocks_agree(concat(parts), tops, 67);
    }
}

/// Whatever the digest is, only a signature of 2144 bytes under a key of 32 bytes can be valid.
pub proof fn lemma_valid_signature_lengths(pk: Seq<u8>, digest: Seq<u8>, sig: Seq<u8>)
    requires
        WotsBlake3::spec_verify(pk, digest, sig),
    ensures
        pk.len() == 32,
        sig.len() == 2144,
{
}

} // verus!
