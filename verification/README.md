# anchor_core

The verified core of an offline-bearer anchor: a Raspberry Pi Pico 2 W that drives a TROPIC01
secure element, so that a wallet can accept a transfer while offline.

The authority is one rule: certify one root advance from the current root, then move the counter.
The parent root commits to the anchor index `u`, so the only valid successor index is `u + 1`. The
chip's MAC-And-Destroy output is an unclonable witness that is folded into a one-time signing key;
its monotonic down-counter gives the index `u = H0 - H`, which cannot be rewound; and the receiver
checks the tree proof, the signature and its own reading of the counter.

## Layout

- `src/domain.rs`, `src/hash.rs`, `src/util.rs`: tags, BLAKE3, byte-level helpers.
- `src/root_advance.rs`: the transition package, its digest, the witness input and key, the
  certificate message, the release.
- `src/sig.rs`: the one-time witness signature.
- `src/tropic.rs`: the traits for the chip and for the signature scheme.
- `src/appliance.rs`: the three-state appliance and its power-loss recovery.
- `src/accept.rs`: the receiver's acceptance predicate.
- `src/lifecycle.rs`: the invariant of an appliance, and what follows for the releases it exports.
- `src/proto.rs` and `src/proto/`: the protobuf messages, their wire format, and conversions.
- `src/service.rs` and `src/service/`: request dispatch, `handle(bytes) -> bytes`, error codes.
- `src/framing.rs`, `src/secure_core.rs`, `src/self_test.rs`, `src/line.rs`: what a device needs
  around the appliance.
- `app/`: the RP2350 firmware: hardware set-up, the chip driver, the USB console.
- `tests/`: tests against the compiled library.

## What is proved

Every function states what it returns or changes. Operations that talk to the chip are stated as
relations over the chip's replies, so their contracts hold whatever the chip answers. On top of
these contracts stand the laws, as public proof functions named `lemma_*`. The main ones:

- whatever the chip replies, every operation keeps the appliance's invariant;
- what an appliance exports, an honest receiver accepts, and only at the counter value that proves
  the step;
- nothing is exported before the counter has moved, an index is spent once, and a witness key signs
  once;
- a commit keeps its release before it moves the counter, so recovery completes one that was
  interrupted, whether or not the counter has moved;
- recovery never signs and never replaces a release;
- distinct transitions have distinct encodings, and the hash inputs bind every field;
- messages and frames survive the wire.

What is trusted is marked `external_body`: BLAKE3's `hash` and `keyed_hash`, prost's varint
functions, and three functions of the standard library. The contracts of the traits `Tropic`,
`DsmVerifier` and `CounterVerifier` are assumed too, of every implementation that is not itself
verified: the chip driver in `app/` and whatever a receiver supplies.
