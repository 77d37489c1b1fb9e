//! A queue of network directories, handed out one at a time as block data.
use vstd::prelude::*;

verus! {

/// The addresses and ports of a relay.
#[derive(Debug)]
pub struct RouterData {
    pub nickname: String,
    pub address: String,
    pub or_port: String,
    pub socks_port: String,
    pub dir_port: String,
}

/// A relay's descriptor.
#[derive(Debug)]
pub struct OrData {
    pub router: RouterData,
    pub identity_ed25519: String,
    pub master_key_ed25519: String,
    pub bandwidth: String,
    pub platform: String,
    pub published: String,
    pub onion_key: String,
    pub onion_key_crosscert: String,
    pub ipv6_policy: String,
    pub contact: String,
}

/// A network directory: the relays' descriptors.
#[derive(Debug)]
pub struct NetDir {
    pub or_list: Vec<OrData>,
}

/// The directories to hand out, and the index of the next one.
#[derive(Debug)]
pub struct AllNetDirs {
    pub dir_list: Vec<NetDir>,
    pub cur_idx: usize,
}

impl AllNetDirs {
    /// A queue of these directories, starting at the first.
    pub fn new(dir_list: Vec<NetDir>) -> (d: AllNetDirs)
        ensures
            d.dir_list@ == dir_list@,
            d.cur_idx == 0,
    {
        AllNetDirs { dir_list, cur_idx: 0 }
    }

    /// Moves past the current directory and gives it, or `None` when every
    /// directory has been handed out (the index still advances).
    pub fn next_data(&mut self) -> (r: Option<&NetDir>)
        requires
            old(self).cur_idx < usize::MAX,
        ensures
            final(self).cur_idx == old(self).cur_idx + 1,
            final(self).dir_list@ == old(self).dir_list@,
            old(self).cur_idx < old(self).dir_list@.len() ==> r == Some(&old(self).dir_list@[old(self).cur_idx as int]),
            old(self).cur_idx >= old(self).dir_list@.len() ==> r is None,
    {
        let i = self.cur_idx;
        self.cur_idx = self.cur_idx + 1;
        if i < self.dir_list.len() {
            Some(&self.dir_list[i])
        } else {
            None
        }
    }

    /// Whether a directory is left to hand out.
    pub fn is_more_data(&self) -> (b: bool)
        ensures
            b == (self.cur_idx < self.dir_list@.len()),
    {
        self.cur_idx < self.dir_list.len()
    }
}

} // verus!
