//! `H`, domain-separated BLAKE3-256, and the keyed derivation function built on it.
//!
//! All structured inputs are fixed-width byte fields, so a domain string followed by them reads
//! one way. Integers are little-endian.
use crate::util::append;
use vstd::prelude::*;
use vstd::string::*;

verus! {

/// The 32-byte BLAKE3 hash of `input`.
pub uninterp spec fn blake3_hash(input: Seq<u8>) -> [u8; 32];

/// The 32-byte keyed BLAKE3 hash of `input` under `key`.
pub uninterp spec fn blake3_keyed_hash(key: Seq<u8>, input: Seq<u8>) -> [u8; 32];

/// `blake3::hash`: the hash of `input` with the default, unkeyed mode.
#[verifier::external_body]
fn blake3_digest(input: &[u8]) -> (digest: [u8; 32])
    ensures
        digest == blake3_hash(input@),
{
    *blake3::hash(input).as_bytes()
}

/// `blake3::keyed_hash`: the hash of `input` in the keyed mode, under the 32-byte `key`.
#[verifier::external_body]
fn blake3_keyed_digest(key: &[u8; 32], input: &[u8]) -> (digest: [u8; 32])
    ensures
        digest == blake3_keyed_hash(key@, input@),
{
    *blake3::keyed_hash(key, input).as_bytes()
}

/// The byte strings that a list of borrowed fields stands for.
pub open spec fn views(fields: Seq<&[u8]>) -> Seq<Seq<u8>> {
    Seq::new(fields.len(), |i: int| fields[i]@)
}

/// The concatenation of the byte strings of `parts`, in order.
pub open spec fn concat(parts: Seq<Seq<u8>>) -> Seq<u8>
    decreases parts.len(),
{
    if parts.len() == 0 {
        Seq::empty()
    } else {
        concat(parts.drop_last()) + parts.last()
    }
}

/// `H(domain || message)`.
pub open spec fn h_spec(domain: &str, message: Seq<u8>) -> Seq<u8> {
    blake3_hash(domain.spec_bytes() + message)@
}

/// The keyed derivation `KDF(secret, domain || message)`.
pub open spec fn kdf_spec(secret: Seq<u8>, domain: &str, message: Seq<u8>) -> Seq<u8> {
    blake3_keyed_hash(secret, domain.spec_bytes() + message)@
}

pub proof fn lemma_concat_push(parts: Seq<Seq<u8>>, part: Seq<u8>)
    ensures
        concat(parts.push(part)) == concat(parts) + part,
{
    assert(parts.push(part).drop_last() =~= parts);
}

/// A list of 32-byte strings concatenates to 32 bytes for each, and the bytes of the `i`-th stand
/// at its place.
pub proof fn lemma_concat_blocks(parts: Seq<Seq<u8>>)
    requires
        forall|i: int| 0 <= i < parts.len() ==> (#[trigger] parts[i]).len() == 32,
    ensures
        concat(parts).len() == 32 * parts.len(),
        forall|i: int|
            0 <= i < parts.len() ==> concat(parts).subrange(32 * i, 32 * i + 32)
                == #[trigger] parts[i],
    decreases parts.len(),
{
    if parts.len() > 0 {
        let init = parts.drop_last();
        assert forall|i: int| 0 <= i < init.len() implies (#[trigger] init[i]).len() == 32 by {
            assert(init[i] == parts[i]);
        }
        lemma_concat_blocks(init);
        assert forall|i: int| 0 <= i < parts.len() implies concat(parts).subrange(
            32 * i,
            32 * i + 32,
        ) == #[trigger] parts[i] by {
            if i < init.len() {
                assert(init[i] == parts[i]);
                assert(concat(parts).subrange(32 * i, 32 * i + 32) =~= concat(init).subrange(
                    32 * i,
                    32 * i + 32,
                ));
            } else {
                assert(concat(parts).subrange(32 * i, 32 * i + 32) =~= parts[i]);
            }
        }
    }
}

/// The domain string followed by the fields, in order.
pub fn preimage(domain: &str, fields: &[&[u8]]) -> (bytes: Vec<u8>)
    ensures
        bytes@ == domain.spec_bytes() + concat(views(fields@)),
{
    let mut bytes: Vec<u8> = Vec::new();
    append(&mut bytes, domain.as_bytes());
    assert(views(fields@).take(0) =~= Seq::empty());
    assert(bytes@ =~= domain.spec_bytes() + concat(views(fields@).take(0)));
    for i in 0..fields.len()
        invariant
            bytes@ == domain.spec_bytes() + concat(views(fields@).take(i as int)),
    {
        append(&mut bytes, fields[i]);
        proof {
            let next = views(fields@).take(i + 1);
            assert(next.drop_last() =~= views(fields@).take(i as int));
            assert(bytes@ =~= domain.spec_bytes() + concat(next));
        }
    }
    assert(views(fields@).take(fields@.len() as int) =~= views(fields@));
    bytes
}

/// `H(domain || f0 || f1 || ..)`: domain-separated BLAKE3-256.
pub fn h(domain: &str, fields: &[&[u8]]) -> (digest: [u8; 32])
    ensures
        digest@ == h_spec(domain, concat(views(fields@))),
{
    let bytes = preimage(domain, fields);
    blake3_digest(bytes.as_slice())
}

/// Domain-separated derivation: keyed BLAKE3 with `secret` as the key and the domain followed by
/// the fields as the message.
pub fn kdf(secret: &[u8; 32], domain: &str, fields: &[&[u8]]) -> (key: [u8; 32])
    ensures
        key@ == kdf_spec(secret@, domain, concat(views(fields@))),
{
    let bytes = preimage(domain, fields);
    blake3_keyed_digest(secret, bytes.as_slice())
}

/// `H` is plain BLAKE3 of the tag and the message, and the derivation is keyed BLAKE3 with the
/// secret as the key: 32 bytes each.
pub proof fn lemma_h_and_kdf_are_blake3(secret: Seq<u8>, domain: &str, message: Seq<u8>)
    ensures
        h_spec(domain, message) == blake3_hash(domain.spec_bytes() + message)@,
        h_spec(domain, message).len() == 32,
        kdf_spec(secret, domain, message) == blake3_keyed_hash(
            secret,
            domain.spec_bytes() + message,
        )@,
        kdf_spec(secret, domain, message).len() == 32,
{
}

/// Fields are hashed one behind the other: nothing for no field, a single field as it is, and
/// lists of fields in their order.
pub proof fn lemma_concat_joins(a: Seq<Seq<u8>>, b: Seq<Seq<u8>>, field: Seq<u8>)
    ensures
        concat(Seq::<Seq<u8>>::empty()) == Seq::<u8>::empty(),
        concat(seq![field]) == field,
        concat(a + b) == concat(a) + concat(b),
    decreases b.len(),
{
    assert(concat(seq![field]) == field) by {
        let none = Seq::<Seq<u8>>::empty();
        lemma_concat_push(none, field);
        assert(none.push(field) =~= seq![field]);
        assert(Seq::<u8>::empty() + field =~= field);
    }
    if b.len() == 0 {
        assert(a + b =~= a);
        assert(concat(a) + concat(b) =~= concat(a));
    } else {
        lemma_concat_joins(a, b.drop_last(), field);
        assert((a + b).drop_last() =~= a + b.drop_last());
        assert(concat(a + b) =~= concat(a) + concat(b));
    }
}

} // verus!
