//! The secure-element operations that the witness flow needs, and the witness signature scheme.
//!
//! Both are traits, so the protocol core depends neither on the chip driver nor on the scheme.
use vstd::prelude::*;

verus! {

/// Why a secure-element operation failed.
#[derive(Clone, Copy, PartialEq, Eq, Debug, Structural)]
pub enum TropicError {
    /// Bus or session failure, or no chip.
    Comm,
    /// The selected MAC-And-Destroy slot is not in the expected armed state.
    NotArmed,
    /// A counter step on an exhausted counter (`H == 0`): online only.
    CounterExhausted,
}

/// TROPIC01 operations over an authenticated session.
///
/// An implementation stands for one chip. Its replies are its own affair: nothing here promises
/// that an operation succeeds, nor which witness comes back. The three `*_step` relations say
/// which replies an implementation may give in which state, so that a caller's contract can speak
/// of the reply that was really received. What is promised is what a monotonic down-counter is.
///
/// The spec functions are ghost. Each has a default, some function of its arguments of which
/// nothing is known, so that an implementation outside of verified code has its three operations
/// to write. That such an implementation keeps to what the operations promise is then assumed.
pub trait Tropic {
    /// The value `H` of the monotonic down-counter.
    closed spec fn counter(&self) -> u32 {
        let value: spec_fn(&Self) -> u32 = arbitrary();
        value(self)
    }

    /// Whether `mac_and_destroy(q, x)`, finding the chip in this state, may answer `reply` and
    /// leave the chip in the state `after`.
    closed spec fn mac_step(
        &self,
        q: u16,
        x: Seq<u8>,
        reply: Result<[u8; 32], TropicError>,
        after: &Self,
    ) -> bool {
        let step: spec_fn(&Self, u16, Seq<u8>, Result<[u8; 32], TropicError>, &Self) -> bool =
            arbitrary();
        step(self, q, x, reply, after)
    }

    /// Whether `counter_get`, finding the chip in this state, may answer `reply` and leave the
    /// chip in the state `after`.
    closed spec fn get_step(&self, reply: Result<u32, TropicError>, after: &Self) -> bool {
        let step: spec_fn(&Self, Result<u32, TropicError>, &Self) -> bool = arbitrary();
        step(self, reply, after)
    }

    /// Whether `counter_update`, finding the chip in this state, may answer `reply` and leave the
    /// chip in the state `after`.
    closed spec fn update_step(&self, reply: Result<(), TropicError>, after: &Self) -> bool {
        let step: spec_fn(&Self, Result<(), TropicError>, &Self) -> bool = arbitrary();
        step(self, reply, after)
    }

    /// `W = MACANDD(q, X)`: one call evolves the state of slot `q` and returns the 32-byte witness
    /// output. The slot must be armed first. The counter never moves up.
    fn mac_and_destroy(&mut self, q: u16, x: &[u8; 32]) -> (reply: Result<[u8; 32], TropicError>)
        ensures
            old(self).mac_step(q, x@, reply, final(self)),
            final(self).counter() <= old(self).counter(),
    ;

    /// The live value `H` of the down-counter. The counter never moves up; a read may find that
    /// somebody else has moved it down.
    fn counter_get(&mut self) -> (reply: Result<u32, TropicError>)
        ensures
            old(self).get_step(reply, final(self)),
            final(self).counter() <= old(self).counter(),
            reply matches Ok(h) ==> h == final(self).counter(),
    ;

    /// One counter step: `H <- H - 1`, refused as exhausted if `H == 0`. After another failure the
    /// step may or may not have happened.
    fn counter_update(&mut self) -> (reply: Result<(), TropicError>)
        ensures
            old(self).update_step(reply, final(self)),
            final(self).counter() <= old(self).counter(),
            reply is Ok ==> final(self).counter() == old(self).counter() - 1,
            old(self).counter() == 0 ==> reply == Err::<(), TropicError>(
                TropicError::CounterExhausted,
            ),
    ;
}

/// A MAC-And-Destroy call that took the chip from `before` to `after` and was answered `reply`.
pub open spec fn mac_done<T: Tropic>(
    before: T,
    q: u16,
    x: Seq<u8>,
    reply: Result<[u8; 32], TropicError>,
    after: T,
) -> bool {
    &&& before.mac_step(q, x, reply, &after)
    &&& after.counter() <= before.counter()
}

/// A counter read that took the chip from `before` to `after` and was answered `reply`.
pub open spec fn get_done<T: Tropic>(before: T, reply: Result<u32, TropicError>, after: T) -> bool {
    &&& before.get_step(reply, &after)
    &&& after.counter() <= before.counter()
    &&& reply matches Ok(h) ==> h == after.counter()
}

/// A counter step that took the chip from `before` to `after` and was answered `reply`.
pub open spec fn update_done<T: Tropic>(
    before: T,
    reply: Result<(), TropicError>,
    after: T,
) -> bool {
    &&& before.update_step(reply, &after)
    &&& after.counter() <= before.counter()
    &&& reply is Ok ==> after.counter() == before.counter() - 1
    &&& before.counter() == 0 ==> reply == Err::<(), TropicError>(TropicError::CounterExhausted)
}

/// The witness signature scheme, deterministic from a 32-byte seed. `pk` and `sig` are byte
/// strings of the scheme's own size.
pub trait WitnessSig {
    /// The key pair `(sk, pk)` of a seed.
    spec fn spec_keygen(seed: Seq<u8>) -> (Seq<u8>, Seq<u8>);

    /// The signature of `digest` under `sk`.
    spec fn spec_sign(sk: Seq<u8>, digest: Seq<u8>) -> Seq<u8>;

    /// Whether `sig` is a signature of `digest` under `pk`.
    spec fn spec_verify(pk: Seq<u8>, digest: Seq<u8>, sig: Seq<u8>) -> bool;

    /// Whether `sk` is a key that `sign` can work with.
    spec fn usable(sk: Seq<u8>) -> bool;

    /// A signature made with the secret key of a seed verifies under its public key.
    proof fn signature_verifies(seed: Seq<u8>, digest: Seq<u8>)
        requires
            seed.len() == 32,
            digest.len() == 32,
        ensures
            Self::spec_verify(
                Self::spec_keygen(seed).1,
                digest,
                Self::spec_sign(Self::spec_keygen(seed).0, digest),
            ),
    ;

    /// The key pair of a 32-byte seed.
    fn keygen(seed: &[u8; 32]) -> (keys: (Vec<u8>, Vec<u8>))
        ensures
            keys.0@ == Self::spec_keygen(seed@).0,
            keys.1@ == Self::spec_keygen(seed@).1,
            Self::usable(keys.0@),
    ;

    /// The signature of a 32-byte digest under `sk`.
    fn sign(sk: &[u8], digest: &[u8; 32]) -> (sig: Vec<u8>)
        requires
            Self::usable(sk@),
        ensures
            sig@ == Self::spec_sign(sk@, digest@),
    ;

    /// Whether `sig` is a signature of a 32-byte digest under `pk`.
    fn verify(pk: &[u8], digest: &[u8; 32], sig: &[u8]) -> (valid: bool)
        ensures
            valid == Self::spec_verify(pk@, digest@, sig@),
    ;
}

/// A counter read reports the counter as it stands afterwards; a counter step that succeeds takes
/// one off it, and one on a counter at zero is refused as exhausted. No operation moves it up.
pub proof fn lemma_counter_only_counts_down<T: Tropic>(
    before: T,
    q: u16,
    x: Seq<u8>,
    witness: Result<[u8; 32], TropicError>,
    read: Result<u32, TropicError>,
    step: Result<(), TropicError>,
    after: T,
)
    ensures
        mac_done(before, q, x, witness, after) ==> before.mac_step(q, x, witness, &after)
            && after.counter() <= before.counter(),
        get_done(before, read, after) ==> before.get_step(read, &after) && after.counter()
            <= before.counter(),
        get_done(before, read, after) ==> (read matches Ok(h) ==> h == after.counter()),
        update_done(before, step, after) ==> before.update_step(step, &after) && after.counter()
            <= before.counter(),
        update_done(before, step, after) && step is Ok ==> after.counter() + 1 == before.counter(),
        update_done(before, step, after) && before.counter() == 0 ==> step == Err::<
            (),
            TropicError,
        >(TropicError::CounterExhausted),
{
}

} // verus!
