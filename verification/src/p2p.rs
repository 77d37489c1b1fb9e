//! A floodsub test network: the distinct peers found so far, and the test
//! message a node sends to one of them.
use vstd::prelude::*;
use vstd::string::StringExecFns;
use crate::peer_init::string_views;
use crate::text::str_equal;

verus! {

/// A test message: its text and the peer it is meant for.
#[derive(Debug)]
pub struct TestMessage {
    pub data: String,
    pub receiver: String,
}

/// Whether `s` holds a string with these characters.
fn contains_str(s: &Vec<String>, x: &str) -> (b: bool)
    ensures
        b == string_views(s@).contains(x@),
{
    let mut i: usize = 0;
    while i < s.len()
        invariant
            i <= s@.len(),
            forall|j: int| 0 <= j < i ==> s@[j]@ != x@,
        decreases s@.len() - i,
    {
        if str_equal(s[i].as_str(), x) {
            assert(string_views(s@)[i as int] == x@);
            return true;
        }
        i = i + 1;
    }
    assert forall|j: int| 0 <= j < string_views(s@).len() implies string_views(s@)[j] != x@ by {
        assert(string_views(s@)[j] == s@[j]@);
    }
    false
}

/// The discovered peers without repetition, each at its first appearance.
pub fn get_peers(nodes: &Vec<String>) -> (peers: Vec<String>)
    ensures
        string_views(peers@).no_duplicates(),
        string_views(peers@).to_set() == string_views(nodes@).to_set(),
{
    let mut peers: Vec<String> = Vec::new();
    let mut i: usize = 0;
    while i < nodes.len()
        invariant
            i <= nodes@.len(),
            string_views(peers@).no_duplicates(),
            string_views(peers@).to_set() == string_views(nodes@.take(i as int)).to_set(),
        decreases nodes@.len() - i,
    {
        let ghost before = peers@;
        assert(string_views(nodes@.take(i + 1)) =~= string_views(nodes@.take(i as int)).push(nodes@[i as int]@));
        proof {
            string_views(nodes@.take(i as int)).lemma_push_to_set_commute(nodes@[i as int]@);
            string_views(before).lemma_push_to_set_commute(nodes@[i as int]@);
        }
        if !contains_str(&peers, nodes[i].as_str()) {
            peers.push(nodes[i].clone());
            assert(string_views(peers@) =~= string_views(before).push(nodes@[i as int]@));
        } else {
            assert(string_views(peers@).to_set().contains(nodes@[i as int]@));
            assert(string_views(nodes@.take(i + 1)).to_set() =~= string_views(nodes@.take(i as int)).to_set());
        }
        i = i + 1;
    }
    assert(nodes@.take(i as int) =~= nodes@);
    peers
}

/// The test message that node `name` sends once it has peers: "Test message
/// from " and its name, for the last peer listed.
pub fn test_request(name: &str, peers: &Vec<String>) -> (m: Option<TestMessage>)
    ensures
        peers@.len() == 0 ==> m is None,
        peers@.len() > 0 ==> (m matches Some(t) && t.data@ == "Test message from "@ + name@ && t.receiver@
            == peers@.last()@),
{
    if peers.len() == 0 {
        return None;
    }
    let mut data = String::new();
    data.append("Test message from ");
    data.append(name);
    let receiver = peers[peers.len() - 1].clone();
    Some(TestMessage { data, receiver })
}

} // verus!
