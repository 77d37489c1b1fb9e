//! A client of the directory service.
use vstd::prelude::*;

verus! {

/// A client that asks a node for the directory (its network side lives
/// outside the library).
#[derive(Debug, Clone, Copy)]
pub struct Client;

impl Client {
    /// A client.
    pub fn new() -> (c: Client)
        ensures
            c == Client,
    {
        Client
    }
}

} // verus!
