//! The byte strings that the scheme passes around: messages, nonces and the
//! per-signer parameter.

use crate::rng::random_bytes;
use rand::rngs::StdRng;
use vstd::prelude::*;

verus! {

/// The length of a message in bytes.
pub const MESSAGE_LEN: usize = 32;

/// The length of a nonce in bytes.
pub const RAND_LEN: usize = 23;

/// The randomness mixed into the message hash, drawn afresh for each signing
/// attempt.
#[derive(Debug, Clone, Copy)]
pub struct Nonce(pub [u8; RAND_LEN]);

impl View for Nonce {
    type V = Seq<u8>;

    open spec fn view(&self) -> Seq<u8> {
        self.0@
    }
}

impl Nonce {
    /// Draws a nonce from the generator: the next `RAND_LEN` bytes of it.
    pub fn random(rng: &mut StdRng) -> (nonce: Nonce) {
        let bytes = random_bytes(rng, RAND_LEN);
        Nonce::from_bytes(bytes.as_slice())
    }

    /// The nonce with the given `RAND_LEN` bytes, in their order.
    pub fn from_bytes(bytes: &[u8]) -> (nonce: Nonce)
        requires
            bytes@.len() == RAND_LEN,
        ensures
            nonce@ == bytes@,
    {
        let mut nonce = Nonce([0u8; RAND_LEN]);
        let mut i: usize = 0;
        while i < RAND_LEN
            invariant
                i <= RAND_LEN,
                bytes@.len() == RAND_LEN,
                forall|j: int| 0 <= j < i ==> nonce.0@[j] == bytes@[j],
            decreases RAND_LEN - i,
        {
            nonce.0[i] = bytes[i];
            i += 1;
        }
        assert(nonce@ =~= bytes@);
        nonce
    }

    /// The bytes of the nonce.
    pub fn as_ref(&self) -> (bytes: &[u8])
        ensures
            bytes@ == self@,
    {
        &self.0
    }
}

/// A message to be signed.
#[derive(Debug, Clone, Copy)]
pub struct Message(pub [u8; MESSAGE_LEN]);

impl View for Message {
    type V = Seq<u8>;

    open spec fn view(&self) -> Seq<u8> {
        self.0@
    }
}

impl Message {
    /// The bytes of the message.
    pub fn as_ref(&self) -> (bytes: &[u8])
        ensures
            bytes@ == self@,
    {
        &self.0
    }
}

/// The per-signer parameter, which separates the hashes of one signer from
/// those of every other.
#[derive(Debug)]
pub struct Param {
    data: Vec<u8>,
}

impl View for Param {
    type V = Seq<u8>;

    closed spec fn view(&self) -> Seq<u8> {
        self.data@
    }
}

impl Param {
    /// The parameter with the given bytes.
    pub fn new(data: Vec<u8>) -> (param: Param)
        ensures
            param@ == data@,
    {
        Param { data }
    }

    /// Draws a parameter of `param_len` bytes from the generator: the next
    /// `param_len` bytes of it.
    pub fn random(param_len: usize, rng: &mut StdRng) -> (param: Param)
        ensures
            param@.len() == param_len,
    {
        Param { data: random_bytes(rng, param_len) }
    }

    /// The bytes of the parameter.
    pub fn as_ref(&self) -> (bytes: &[u8])
        ensures
            bytes@ == self@,
    {
        self.data.as_slice()
    }
}

impl Clone for Param {
    fn clone(&self) -> (res: Self)
        ensures
            res@ == self@,
    {
        Param { data: self.data.clone() }
    }
}

} // verus!
