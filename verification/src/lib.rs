//! A hash-based, stateful, few-time signature scheme: Winternitz-style
//! one-time signatures over tweaked Keccak hash chains, bound to one public
//! root by a binary Merkle tree, with a verifier for sets of such signatures.

pub mod aggregate;
pub mod code;
pub mod encoding;
pub mod hash;
pub mod hash_chain;
pub mod hash_tree;
pub mod keccak;
pub mod keys;
pub mod rng;
pub mod signature;
pub mod signer;
pub mod spec;
pub mod sponge;
pub mod types;
pub mod witness;

pub use crate::aggregate::{AggregatedSignature, AggregatedVerifier, ValidatorSignature};
pub use crate::keys::{Pk, Sk};
pub use crate::signature::{
    verify_one_time_signature, verify_signature, OtsSignature, Signature,
};
pub use crate::signer::Signer;
pub use crate::types::{Message, Nonce, Param};
