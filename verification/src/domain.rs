//! Domain tags of the root-advance construction.
//!
//! The tags are normative: a receiver recomputes every value under the same tag, so they must
//! match across the appliance and all verifiers.
use vstd::prelude::*;
use vstd::string::*;

verus! {

/// Transition digest `D = H(tag || enc(transition))`.
pub const TRANSITION_DIGEST_V1: &'static str = "DSM/root-advance/transition-digest/v1";

/// Witness input `X` of the MAC-And-Destroy call.
pub const ROOT_ADVANCE_INPUT_V1: &'static str = "DSM/tropic/root-advance-input/v1";

/// Witness signing seed `K`, keyed by the MAC-And-Destroy output `W`.
pub const ROOT_ADVANCE_WITNESS_KEY_V1: &'static str = "DSM/tropic/root-advance-witness-key/v1";

/// Committed handle `P_hw` of the public witness key.
pub const PK_HASH_V1: &'static str = "DSM/tropic/pk-hash/v1";

/// Root-advance certificate message `M`: the digest that is signed.
pub const CERT_MESSAGE_V1: &'static str = "DSM/root-advance/cert-message/v1";

/// Chain step function of the one-time signature.
pub const WOTS_CHAIN_V1: &'static str = "DSM/anchor/wots-chain/v1";

/// Derivation of one chain secret from the seed.
pub const WOTS_SK_V1: &'static str = "DSM/anchor/wots-sk/v1";

/// Compression of the chain tops into the public key.
pub const WOTS_PK_V1: &'static str = "DSM/anchor/wots-pk/v1";

/// All tags of the construction.
pub open spec fn tags() -> Seq<&'static str> {
    seq![
        TRANSITION_DIGEST_V1,
        ROOT_ADVANCE_INPUT_V1,
        ROOT_ADVANCE_WITNESS_KEY_V1,
        PK_HASH_V1,
        CERT_MESSAGE_V1,
        WOTS_CHAIN_V1,
        WOTS_SK_V1,
        WOTS_PK_V1,
    ]
}

/// The tags separate the domains: under two different tags no two messages have the same hash
/// input, since neither tag is a beginning of the other.
pub proof fn lemma_tags_separate(i: int, j: int, a: Seq<u8>, b: Seq<u8>)
    requires
        0 <= i < tags().len(),
        0 <= j < tags().len(),
        tags()[i].spec_bytes() + a == tags()[j].spec_bytes() + b,
    ensures
        i == j,
        a == b,
{
    reveal_strlit("DSM/root-advance/transition-digest/v1");
    assert(is_ascii(TRANSITION_DIGEST_V1));
    is_ascii_spec_bytes(TRANSITION_DIGEST_V1);
    reveal_strlit("DSM/tropic/root-advance-input/v1");
    assert(is_ascii(ROOT_ADVANCE_INPUT_V1));
    is_ascii_spec_bytes(ROOT_ADVANCE_INPUT_V1);
    reveal_strlit("DSM/tropic/root-advance-witness-key/v1");
    assert(is_ascii(ROOT_ADVANCE_WITNESS_KEY_V1));
    is_ascii_spec_bytes(ROOT_ADVANCE_WITNESS_KEY_V1);
    reveal_strlit("DSM/tropic/pk-hash/v1");
    assert(is_ascii(PK_HASH_V1));
    is_ascii_spec_bytes(PK_HASH_V1);
    reveal_strlit("DSM/root-advance/cert-message/v1");
    assert(is_ascii(CERT_MESSAGE_V1));
    is_ascii_spec_bytes(CERT_MESSAGE_V1);
    reveal_strlit("DSM/anchor/wots-chain/v1");
    assert(is_ascii(WOTS_CHAIN_V1));
    is_ascii_spec_bytes(WOTS_CHAIN_V1);
    reveal_strlit("DSM/anchor/wots-sk/v1");
    assert(is_ascii(WOTS_SK_V1));
    is_ascii_spec_bytes(WOTS_SK_V1);
    reveal_strlit("DSM/anchor/wots-pk/v1");
    assert(is_ascii(WOTS_PK_V1));
    is_ascii_spec_bytes(WOTS_PK_V1);
    let left = tags()[i].spec_bytes() + a;
    let right = tags()[j].spec_bytes() + b;
    assert(left[4] == right[4] && left[11] == right[11] && left[16] == right[16] && left[17]
        == right[17] && left[24] == right[24]);
    assert(i == j);
    let n = tags()[i].spec_bytes().len() as int;
    assert(left.skip(n) =~= a);
    assert(right.skip(n) =~= b);
}

} // verus!
