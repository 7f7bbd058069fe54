//! Core building blocks of a three-party secure multi-party computation
//! helper: prime-field algebra, replicated 2-of-3 secret sharing with a
//! malicious-secure variant, a hierarchical protocol-step namespace, and the
//! per-(channel, record) rendezvous buffer of the message gateway.

pub mod attribution;
pub mod bytes;
pub mod context;
pub mod error;
pub mod field;
pub mod gateway;
pub mod fp25519;
pub mod fp31;
pub mod malicious;
pub mod protocol;
pub mod replicated;
pub mod role;
pub mod step;
pub mod strsplit;

use vstd::prelude::*;

verus! {

} // verus!
