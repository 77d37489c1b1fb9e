//! The static configuration of a four-host test network: host `hK` has the
//! address `10.0.0.K`; a host's own address is its own, and every other
//! host's address is a peer's.
use vstd::prelude::*;
use vstd::string::StringExecFns;
use crate::text::{append_decimal, decimal, str_equal};

verus! {

/// The number of hosts.
pub const N: i32 = 4;

/// A host's address and its peers' addresses.
#[derive(Debug)]
pub struct ConfigData {
    pub my_ip: String,
    pub peer_ips: Vec<String>,
}

/// The name of host `k`: "h" and the number.
pub open spec fn host_name(k: nat) -> Seq<char> {
    seq!['h'] + decimal(k)
}

/// The address of host `k`: "10.0.0." and the number.
pub open spec fn host_ip(k: nat) -> Seq<char> {
    "10.0.0."@ + decimal(k)
}

/// The addresses of the hosts `1..=k` other than `name`, in order.
pub open spec fn other_ips(name: Seq<char>, k: nat) -> Seq<Seq<char>>
    decreases k,
{
    if k == 0 {
        Seq::empty()
    } else if name == host_name(k) {
        other_ips(name, (k - 1) as nat)
    } else {
        other_ips(name, (k - 1) as nat).push(host_ip(k))
    }
}

/// The address of the last of the hosts `1..=k` named `name`, or `ip` if
/// none is.
pub open spec fn own_ip(name: Seq<char>, ip: Seq<char>, k: nat) -> Seq<char>
    decreases k,
{
    if k == 0 {
        ip
    } else if name == host_name(k) {
        host_ip(k)
    } else {
        own_ip(name, ip, (k - 1) as nat)
    }
}

/// Sets the host's own address from its name and appends every other host's
/// address to its peers.
pub fn set_config(config: &mut ConfigData, my_name: String)
    ensures
        final(config).my_ip@ == own_ip(my_name@, old(config).my_ip@, N as nat),
        final(config).peer_ips@.map_values(|s: String| s@) == old(config).peer_ips@.map_values(|s: String| s@)
            + other_ips(my_name@, N as nat),
{
    let ghost start = old(config).peer_ips@.map_values(|s: String| s@);
    let mut i: i32 = 0;
    while i < N
        invariant
            0 <= i <= N,
            config.my_ip@ == own_ip(my_name@, old(config).my_ip@, i as nat),
            config.peer_ips@.map_values(|s: String| s@) == start + other_ips(my_name@, i as nat),
        decreases N - i,
    {
        let k: u64 = (i + 1) as u64;
        let mut name = String::new();
        name.append("h");
        append_decimal(&mut name, k);
        let mut ip = String::new();
        ip.append("10.0.0.");
        append_decimal(&mut ip, k);
        proof {
            reveal_strlit("h");
            assert(name@ =~= host_name(k as nat));
            assert(ip@ =~= host_ip(k as nat));
        }
        if str_equal(my_name.as_str(), name.as_str()) {
            config.my_ip = ip;
        } else {
            let ghost before = config.peer_ips@;
            config.peer_ips.push(ip);
            proof {
                assert(config.peer_ips@.map_values(|s: String| s@) =~= before.map_values(|s: String| s@).push(
                    host_ip(k as nat),
                ));
            }
        }
        i = i + 1;
    }
}

} // verus!
