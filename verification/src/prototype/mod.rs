//! The first single-node Streamlet sketch: a node that holds a key pair and
//! signs with it, string-payload blocks chained by hash, and proposal and
//! vote messages over those blocks.
pub mod utils;
pub mod messages;

use vstd::prelude::*;
use crate::crypto::{Keypair, PublicKey, Signature, ed25519_signature, ed25519_verifies};

verus! {

/// A node of the sketch: just its signing key pair.
pub struct StreamletInstance {
    pub keypair: Keypair,
}

impl StreamletInstance {
    /// The node's public key.
    pub fn get_public_key(&self) -> (pk: PublicKey)
        ensures
            pk == self.keypair.public,
    {
        self.keypair.public
    }

    /// Signs `message` with the node's key pair.
    pub fn sign(&self, message: &[u8]) -> (sig: Signature)
        requires
            self.keypair.wf(),
        ensures
            sig.bytes@ == ed25519_signature(self.keypair.secret@, message@),
            ed25519_verifies(self.keypair.public.bytes@, message@, sig.bytes@),
    {
        self.keypair.sign(message)
    }
}

/// A node with a fresh key pair.
pub fn create_streamlet_instance() -> (s: StreamletInstance)
    ensures
        s.keypair.wf(),
{
    StreamletInstance { keypair: Keypair::generate() }
}

} // verus!
