//! The hardware-free core of an offline-bearer anchor: a secure element that certifies one root
//! advance from the current root, and then moves its counter.
//!
//! The anchor index is committed by the parent root, so the only valid successor index is the next
//! one. The secure element's MAC-And-Destroy output is an unclonable witness that is bound into the
//! advance, its monotonic down-counter gives an index that cannot be rewound, and the receiver
//! reads that counter for itself.
//!
//! `appliance` produces releases and recovers from power loss, and `effects` writes out what each
//! of its operations does. `accept` is the receiver's predicate, `lifecycle` holds what is proved
//! of the two together, `proto` and `service` are the wire protocol, and `framing`, `secure_core`,
//! `self_test` and `line` are what a device needs around them.
#![allow(unused_imports)]

pub mod accept;
pub mod appliance;
pub mod domain;
pub mod effects;
pub mod framing;
pub mod hash;
pub mod lifecycle;
pub mod line;
pub mod proto;
pub mod root_advance;
pub mod secure_core;
pub mod self_test;
pub mod service;
pub mod sig;
pub mod tropic;
pub mod util;
