//! The first design of the chain: blocks whose hashes are strings, a local
//! chain that starts from a genesis block, and a player that checks that
//! each block names its parent.
pub mod block;
pub mod chain;
pub mod blockchain_utils;
pub mod node_utils;

use vstd::prelude::*;
use crate::clock::time_since_unix_epoch;

verus! {

/// The current time in whole seconds since the Unix epoch; a clock set
/// before 1970, or past what an `i64` holds, reads as 0.
pub(crate) fn utc_now_timestamp() -> i64 {
    match time_since_unix_epoch() {
        Some((secs, _)) => if secs <= i64::MAX as u64 {
            secs as i64
        } else {
            0
        },
        None => 0,
    }
}

} // verus!
