//! Peer discovery: every node advertises its name and public key on the
//! initialization channel until it knows the expected number of peers. The
//! first public key received for a name is the one kept.
use vstd::prelude::*;
use crate::clock::time_since_unix_epoch;
use crate::crypto::PublicKey;
use crate::messages::{Message, MessageKind, MessagePayload, random_u32};
use crate::network::{NetworkStack, is_publish, is_unsubscribe};
use crate::text::{decimal, decimal_string};

verus! {

/// A point in time: seconds and nanoseconds since the Unix epoch.
#[derive(Debug, Clone, Copy, PartialEq, Eq, Structural)]
pub struct Timestamp {
    pub secs_since_epoch: u64,
    pub nanos_since_epoch: u32,
}

/// A node's announcement of itself to its peers. `end_init` asks the
/// receivers to close their initialization channel; `known_peers` lists the
/// names the sender already knows.
#[derive(Debug)]
pub struct PeerAdvertisement {
    pub public_key: PublicKey,
    pub node_id: u32,
    pub node_name: String,
    pub timestamp: Timestamp,
    pub end_init: bool,
    pub known_peers: Vec<String>,
}

/// Where peer discovery stands after an advertisement.
#[derive(Debug, Clone, Copy, PartialEq, Eq, Structural)]
pub enum InitStatus {
    InProgress,
    Done,
    DoneStartTimer,
}

/// A misbehaviour that a peer can be labelled with.
#[derive(Debug, Clone, Copy, PartialEq, Eq, Structural)]
pub enum CompromiseType {
    BadBlocks,
    NoPropose,
    MultiVote,
    NoVote,
    BadPublish,
    TargettedMessages,
    NonLeaderPropose,
    NoCompromise,
}

impl CompromiseType {
    /// Whether this is `NonLeaderPropose`.
    pub fn is_non_leader_propose(&self) -> (r: bool)
        ensures
            r == (*self == CompromiseType::NonLeaderPropose),
    {
        match *self {
            CompromiseType::NonLeaderPropose => true,
            _ => false,
        }
    }

    /// Whether this is `BadBlocks`.
    pub fn is_bad_blocks(&self) -> (r: bool)
        ensures
            r == (*self == CompromiseType::BadBlocks),
    {
        match *self {
            CompromiseType::BadBlocks => true,
            _ => false,
        }
    }

    /// Whether this is `NoPropose`.
    pub fn is_no_propose(&self) -> (r: bool)
        ensures
            r == (*self == CompromiseType::NoPropose),
    {
        match *self {
            CompromiseType::NoPropose => true,
            _ => false,
        }
    }

    /// Whether this is `MultiVote`.
    pub fn is_multi_vote(&self) -> (r: bool)
        ensures
            r == (*self == CompromiseType::MultiVote),
    {
        match *self {
            CompromiseType::MultiVote => true,
            _ => false,
        }
    }

    /// Whether this is `NoVote`.
    pub fn is_no_vote(&self) -> (r: bool)
        ensures
            r == (*self == CompromiseType::NoVote),
    {
        match *self {
            CompromiseType::NoVote => true,
            _ => false,
        }
    }
}

/// The names in a list of (name, key) pairs.
pub open spec fn peer_names(list: Seq<(String, PublicKey)>) -> Seq<Seq<char>> {
    list.map_values(|p: (String, PublicKey)| p.0@)
}

/// The names of a list of strings.
pub open spec fn string_views(list: Seq<String>) -> Seq<Seq<char>> {
    list.map_values(|s: String| s@)
}

/// `m` is a peer-initialization message that advertises a node with these
/// fields, sent under the node's own name and id.
pub open spec fn advertises(
    m: Message,
    name: Seq<char>,
    sender_name: Seq<char>,
    id: u32,
    pk: PublicKey,
    known: Seq<Seq<char>>,
    end_init: bool,
) -> bool {
    &&& m.kind == MessageKind::PeerInit
    &&& m.sender_id == id
    &&& m.sender_name@ == sender_name
    &&& m.signatures@.len() == 0
    &&& match m.payload {
        MessagePayload::PeerAdvertisement(a) => {
            &&& a.node_name@ == name
            &&& a.node_id == id
            &&& a.public_key == pk
            &&& a.end_init == end_init
            &&& string_views(a.known_peers@) == known
        },
        _ => false,
    }
}

/// What receiving advertisement `ad` does to a node's peers `p0` (giving
/// `p1`) and its network stack `n0` (giving `n1`), with the status reported:
/// see `Peers::recv_advertisement`.
pub open spec fn advertisement_received(
    p0: Peers,
    p1: Peers,
    n0: NetworkStack,
    n1: NetworkStack,
    ad: PeerAdvertisement,
    status: InitStatus,
) -> bool {
    &&& p1.node_name == p0.node_name
    &&& p1.node_id == p0.node_id
    &&& p1.public_key == p0.public_key
    &&& p1.num_expected == p0.num_expected
    &&& p1.compromise_type == p0.compromise_type
    &&& n1.topic == n0.topic
    &&& n1.init_topic == n0.init_topic
    &&& (ad.end_init && p0.done() ==> {
        &&& status == InitStatus::Done
        &&& p1.peer_list@ == p0.peer_list@
        &&& !n1.init_open
        &&& n0.init_open ==> n1.pending@ == n0.pending@.push(n1.pending@.last()) && is_unsubscribe(
            n1.pending@.last(),
            n0.init_topic@,
        )
        &&& !n0.init_open ==> n1.pending@ == n0.pending@
    })
    &&& (!(ad.end_init && p0.done()) && (p0.done() || p0.has_peer(ad.node_name@)) ==> {
        &&& status == InitStatus::Done
        &&& p1.peer_list@ == p0.peer_list@
        &&& n1 == n0
    })
    &&& (!p0.done() && !p0.has_peer(ad.node_name@) ==> {
        let answer = !string_views(ad.known_peers@).contains(p0.node_name@);
        let closes = p0.peer_list@.len() + 1 >= p0.num_expected && n0.init_open;
        let sent = if answer && n0.init_open { 1int } else { 0int };
        &&& p1.peer_list@.len() == p0.peer_list@.len() + 1
        &&& p1.peer_list@.take(p0.peer_list@.len() as int) == p0.peer_list@
        &&& p1.peer_list@.last().0@ == ad.node_name@
        &&& p1.peer_list@.last().1 == ad.public_key
        &&& n1.init_open == (n0.init_open && !closes)
        &&& n1.pending@.len() == n0.pending@.len() + sent + if closes {
            1int
        } else {
            0int
        }
        &&& n1.pending@.take(n0.pending@.len() as int) == n0.pending@
        &&& (answer && n0.init_open) ==> exists|m: Message|
            is_publish(n1.pending@[n0.pending@.len() as int], n0.init_topic@, m) && advertises(
                m,
                p0.node_name@,
                p0.node_name@,
                p0.node_id,
                p0.public_key,
                peer_names(p1.peer_list@),
                false,
            )
        &&& closes ==> is_unsubscribe(n1.pending@.last(), n0.init_topic@)
        &&& status == if closes {
            InitStatus::DoneStartTimer
        } else {
            InitStatus::InProgress
        }
    })
}

/// The current time since the Unix epoch; a clock set before 1970 is
/// stamped as the epoch itself.
pub fn timestamp_now() -> (t: Timestamp)
    ensures
        t.nanos_since_epoch < 1_000_000_000,
{
    match time_since_unix_epoch() {
        Some((secs, nanos)) => Timestamp { secs_since_epoch: secs, nanos_since_epoch: nanos },
        None => Timestamp { secs_since_epoch: 0, nanos_since_epoch: 0 },
    }
}

/// A node's knowledge of its peers during discovery.
#[derive(Debug)]
pub struct Peers {
    pub node_name: String,
    pub node_id: u32,
    pub public_key: PublicKey,
    pub peer_list: Vec<(String, PublicKey)>,
    pub num_expected: usize,
    pub compromise_type: CompromiseType,
}

/// Whether `list` holds `name`.
pub fn contains_string(list: &Vec<String>, name: &String) -> (found: bool)
    ensures
        found == string_views(list@).contains(name@),
{
    let mut i: usize = 0;
    while i < list.len()
        invariant
            i <= list@.len(),
            forall|j: int| 0 <= j < i ==> list@[j]@ != name@,
        decreases list@.len() - i,
    {
        if list[i] == *name {
            assert(string_views(list@)[i as int] == name@);
            return true;
        }
        i = i + 1;
    }
    assert forall|j: int| 0 <= j < string_views(list@).len() implies string_views(list@)[j] != name@ by {
        assert(string_views(list@)[j] == list@[j]@);
    }
    false
}

impl Peers {
    /// No name is listed twice.
    pub open spec fn wf(&self) -> bool {
        peer_names(self.peer_list@).no_duplicates()
    }

    /// Whether `name` is a known peer.
    pub open spec fn has_peer(&self, name: Seq<char>) -> bool {
        peer_names(self.peer_list@).contains(name)
    }

    /// Discovery is done once as many peers are known as expected.
    pub open spec fn done(&self) -> bool {
        self.peer_list@.len() >= self.num_expected
    }

    /// A node named `my_name` (a random decimal number when it is empty) that
    /// expects `num_peers` peers and knows none yet.
    pub fn new(my_name: String, public_key: PublicKey, num_peers: usize) -> (p: Peers)
        ensures
            p.wf(),
            my_name@.len() > 0 ==> p.node_name@ == my_name@,
            my_name@.len() == 0 ==> exists|n: u32| p.node_name@ == decimal(n as nat),
            p.node_id == 0,
            p.public_key == public_key,
            p.peer_list@.len() == 0,
            p.num_expected == num_peers,
            p.compromise_type == CompromiseType::NoCompromise,
    {
        let mut name = my_name;
        if name.as_str().is_empty() {
            let rand: u32 = random_u32();
            name = decimal_string(rand as u64);
        }
        let p = Peers {
            node_name: name,
            node_id: 0,
            public_key,
            peer_list: Vec::new(),
            compromise_type: CompromiseType::NoCompromise,
            num_expected: num_peers,
        };
        assert(peer_names(p.peer_list@) =~= Seq::<Seq<char>>::empty());
        p
    }

    /// Records the id chosen for this node.
    pub fn set_node_id(&mut self, new_node_id: u32)
        ensures
            final(self).node_id == new_node_id,
            final(self).node_name == old(self).node_name,
            final(self).public_key == old(self).public_key,
            final(self).peer_list == old(self).peer_list,
            final(self).num_expected == old(self).num_expected,
            final(self).compromise_type == old(self).compromise_type,
    {
        self.node_id = new_node_id;
    }

    /// Whether `name` is a known peer.
    pub fn knows(&self, name: &String) -> (found: bool)
        ensures
            found == self.has_peer(name@),
    {
        let mut i: usize = 0;
        while i < self.peer_list.len()
            invariant
                i <= self.peer_list@.len(),
                forall|j: int| 0 <= j < i ==> self.peer_list@[j].0@ != name@,
            decreases self.peer_list@.len() - i,
        {
            if self.peer_list[i].0 == *name {
                assert(peer_names(self.peer_list@)[i as int] == name@);
                return true;
            }
            i = i + 1;
        }
        assert forall|j: int| 0 <= j < peer_names(self.peer_list@).len() implies peer_names(
            self.peer_list@,
        )[j] != name@ by {
            assert(peer_names(self.peer_list@)[j] == self.peer_list@[j].0@);
        }
        false
    }

    /// Handles an advertisement received on the initialization channel.
    ///
    /// A closing advertisement received once discovery is done closes the
    /// channel. Once done, or for a name already known, nothing changes: the
    /// first key received for a name is kept. Otherwise the peer is recorded,
    /// this node advertises itself back unless the sender already knows it,
    /// and once enough peers are known while the channel is open, the channel
    /// is closed and discovery is reported done (start the epoch timer).
    pub fn recv_advertisement(&mut self, ad: &PeerAdvertisement, net_stack: &mut NetworkStack) -> (status: InitStatus)
        requires
            old(self).wf(),
        ensures
            final(self).wf(),
            advertisement_received(*old(self), *final(self), *old(net_stack), *final(net_stack), *ad, status),
    {
        if ad.end_init && self.is_done() {
            self.end_init(net_stack);
            return InitStatus::Done;
        }
        if self.is_done() || self.knows(&ad.node_name) {
            return InitStatus::Done;
        }
        let ghost old_list = self.peer_list@;
        self.peer_list.push((ad.node_name.clone(), ad.public_key));
        proof {
            assert(peer_names(self.peer_list@) =~= peer_names(old_list).push(ad.node_name@));
            assert(self.peer_list@.take(old_list.len() as int) =~= old_list);
        }
        let ghost before = net_stack.pending@;
        if !contains_string(&ad.known_peers, &self.node_name) {
            self.advertise_self(net_stack);
        }
        let ghost mid = net_stack.pending@;
        proof {
            if mid.len() > before.len() {
                assert(mid[before.len() as int] == mid.last());
            }
        }
        if self.is_done() && net_stack.init_channel_open() {
            self.end_init(net_stack);
            proof {
                assert(net_stack.pending@.take(mid.len() as int) =~= mid);
                assert(net_stack.pending@.take(before.len() as int) =~= mid.take(before.len() as int));
                if mid.len() > before.len() {
                    assert(net_stack.pending@[before.len() as int] == mid[before.len() as int]);
                }
            }
            return InitStatus::DoneStartTimer;
        }
        assert(net_stack.pending@.take(before.len() as int) =~= before);
        InitStatus::InProgress
    }

    /// Whether as many peers are known as expected.
    pub fn is_done(&self) -> (done: bool)
        ensures
            done == self.done(),
    {
        self.peer_list.len() >= self.num_expected
    }

    /// Sends a closing advertisement on the initialization channel (if it is
    /// open) and closes the channel.
    pub fn send_end_init(&mut self, net_stack: &mut NetworkStack)
        ensures
            *final(self) == *old(self),
            final(net_stack).topic == old(net_stack).topic,
            final(net_stack).init_topic == old(net_stack).init_topic,
            !final(net_stack).init_open,
            !old(net_stack).init_open ==> final(net_stack).pending@ == old(net_stack).pending@,
            old(net_stack).init_open ==> {
                &&& final(net_stack).pending@.len() == old(net_stack).pending@.len() + 2
                &&& final(net_stack).pending@.take(old(net_stack).pending@.len() as int) == old(
                    net_stack,
                ).pending@
                &&& exists|m: Message|
                    is_publish(
                        final(net_stack).pending@[old(net_stack).pending@.len() as int],
                        old(net_stack).init_topic@,
                        m,
                    ) && advertises(
                        m,
                        Seq::empty(),
                        old(self).node_name@,
                        old(self).node_id,
                        old(self).public_key,
                        Seq::empty(),
                        true,
                    )
                &&& is_unsubscribe(final(net_stack).pending@.last(), old(net_stack).init_topic@)
            },
    {
        let my_ad = PeerAdvertisement {
            end_init: true,
            node_name: String::new(),
            node_id: self.node_id,
            timestamp: timestamp_now(),
            public_key: self.public_key,
            known_peers: Vec::new(),
        };
        assert(string_views(my_ad.known_peers@) =~= Seq::<Seq<char>>::empty());
        let message = Message::new(
            MessagePayload::PeerAdvertisement(my_ad),
            MessageKind::PeerInit,
            self.node_id,
            self.node_name.clone(),
        );
        let ghost msg = message;
        assert(advertises(
            msg,
            Seq::empty(),
            old(self).node_name@,
            old(self).node_id,
            old(self).public_key,
            Seq::empty(),
            true,
        ));
        let ghost before = net_stack.pending@;
        net_stack.send_init_channel(message);
        let ghost mid = net_stack.pending@;
        self.end_init(net_stack);
        proof {
            if old(net_stack).init_open {
                assert(net_stack.pending@.take(before.len() as int) =~= before);
                assert(net_stack.pending@[before.len() as int] == mid.last());
                assert(is_publish(mid.last(), old(net_stack).init_topic@, msg));
            }
        }
    }

    /// Closes the initialization channel if it is open.
    fn end_init(&mut self, net_stack: &mut NetworkStack)
        ensures
            *final(self) == *old(self),
            final(net_stack).topic == old(net_stack).topic,
            final(net_stack).init_topic == old(net_stack).init_topic,
            !final(net_stack).init_open,
            old(net_stack).init_open ==> final(net_stack).pending@ == old(net_stack).pending@.push(
                final(net_stack).pending@.last(),
            ) && is_unsubscribe(final(net_stack).pending@.last(), old(net_stack).init_topic@),
            !old(net_stack).init_open ==> final(net_stack).pending@ == old(net_stack).pending@,
    {
        if !net_stack.init_channel_open() {
            return;
        }
        net_stack.close_init_channel();
    }

    /// Labels this node with a misbehaviour.
    pub fn set_compromise(&mut self, compromise_type: CompromiseType)
        ensures
            final(self).compromise_type == compromise_type,
            final(self).node_name == old(self).node_name,
            final(self).node_id == old(self).node_id,
            final(self).public_key == old(self).public_key,
            final(self).peer_list == old(self).peer_list,
            final(self).num_expected == old(self).num_expected,
    {
        self.compromise_type = compromise_type
    }

    /// The number of peers expected.
    pub fn num_peers_expected(&self) -> (n: usize)
        ensures
            n == self.num_expected,
    {
        self.num_expected
    }

    /// Forgets the peer called `name`, expecting one peer fewer if it was known.
    pub fn permanently_delete_peer(&mut self, name: String)
        requires
            old(self).wf(),
            old(self).has_peer(name@) ==> old(self).num_expected > 0,
        ensures
            final(self).wf(),
            !final(self).has_peer(name@),
            final(self).node_name == old(self).node_name,
            final(self).node_id == old(self).node_id,
            final(self).public_key == old(self).public_key,
            final(self).compromise_type == old(self).compromise_type,
            old(self).has_peer(name@) ==> final(self).num_expected == old(self).num_expected - 1,
            !old(self).has_peer(name@) ==> final(self).num_expected == old(self).num_expected
                && final(self).peer_list@ == old(self).peer_list@,
            forall|other: Seq<char>| other != name@ ==> (final(self).has_peer(other) == old(self).has_peer(other)),
    {
        let mut i: usize = 0;
        while i < self.peer_list.len()
            invariant
                i <= self.peer_list@.len(),
                self.peer_list@ == old(self).peer_list@,
                self.num_expected == old(self).num_expected,
                self.node_name == old(self).node_name,
                self.node_id == old(self).node_id,
                self.public_key == old(self).public_key,
                self.compromise_type == old(self).compromise_type,
                peer_names(old(self).peer_list@).no_duplicates(),
                old(self).has_peer(name@) ==> old(self).num_expected > 0,
                forall|j: int| 0 <= j < i ==> self.peer_list@[j].0@ != name@,
            decreases self.peer_list@.len() - i,
        {
            if self.peer_list[i].0 == name {
                let ghost old_names = peer_names(self.peer_list@);
                assert(old_names[i as int] == name@);
                assert(old(self).has_peer(name@));
                self.peer_list.remove(i);
                self.num_expected = self.num_expected - 1;
                proof {
                    assert(old_names[i as int] == name@);
                    assert(peer_names(self.peer_list@) =~= old_names.remove(i as int));
                    assert forall|a: int, b: int|
                        0 <= a < b < peer_names(self.peer_list@).len() implies peer_names(
                        self.peer_list@,
                    )[a] != peer_names(self.peer_list@)[b] by {
                        let a2 = if a < i { a } else { a + 1 };
                        let b2 = if b < i { b } else { b + 1 };
                        assert(old_names[a2] != old_names[b2]);
                    }
                    assert forall|j: int| 0 <= j < peer_names(self.peer_list@).len() implies peer_names(
                        self.peer_list@,
                    )[j] != name@ by {
                        let j2 = if j < i { j } else { j + 1 };
                        assert(old_names[j2] != old_names[i as int]);
                    }
                    assert forall|other: Seq<char>| other != name@ implies (self.has_peer(other)
                        == old(self).has_peer(other)) by {
                        if old(self).has_peer(other) {
                            let k = choose|k: int| 0 <= k < old_names.len() && old_names[k] == other;
                            assert(k != i);
                            let k2 = if k < i { k } else { k - 1 };
                            assert(peer_names(self.peer_list@)[k2] == other);
                        }
                        if self.has_peer(other) {
                            let k = choose|k: int|
                                0 <= k < peer_names(self.peer_list@).len() && peer_names(self.peer_list@)[k]
                                    == other;
                            let k2 = if k < i { k } else { k + 1 };
                            assert(old_names[k2] == other);
                        }
                    }
                }
                return;
            }
            i = i + 1;
        }
        assert forall|j: int| 0 <= j < peer_names(self.peer_list@).len() implies peer_names(self.peer_list@)[j]
            != name@ by {
            assert(peer_names(self.peer_list@)[j] == self.peer_list@[j].0@);
        }
    }

    /// Advertises this node, with the names of the peers it knows, on the
    /// initialization channel (dropped if the channel is closed).
    pub fn advertise_self(&mut self, net_stack: &mut NetworkStack)
        ensures
            *final(self) == *old(self),
            final(net_stack).topic == old(net_stack).topic,
            final(net_stack).init_topic == old(net_stack).init_topic,
            final(net_stack).init_open == old(net_stack).init_open,
            !old(net_stack).init_open ==> final(net_stack).pending@ == old(net_stack).pending@,
            old(net_stack).init_open ==> {
                &&& final(net_stack).pending@.len() == old(net_stack).pending@.len() + 1
                &&& final(net_stack).pending@.take(old(net_stack).pending@.len() as int) == old(
                    net_stack,
                ).pending@
                &&& exists|m: Message|
                    is_publish(final(net_stack).pending@.last(), old(net_stack).init_topic@, m) && advertises(
                        m,
                        old(self).node_name@,
                        old(self).node_name@,
                        old(self).node_id,
                        old(self).public_key,
                        peer_names(old(self).peer_list@),
                        false,
                    )
            },
    {
        let mut known: Vec<String> = Vec::new();
        let mut i: usize = 0;
        while i < self.peer_list.len()
            invariant
                i <= self.peer_list@.len(),
                string_views(known@) == peer_names(self.peer_list@).take(i as int),
            decreases self.peer_list@.len() - i,
        {
            let ghost old_known = known@;
            let name_copy = self.peer_list[i].0.clone();
            known.push(name_copy);
            assert(string_views(known@) =~= string_views(old_known).push(self.peer_list@[i as int].0@));
            assert(peer_names(self.peer_list@).take(i + 1) =~= peer_names(self.peer_list@).take(
                i as int,
            ).push(self.peer_list@[i as int].0@));
            i = i + 1;
        }
        assert(peer_names(self.peer_list@).take(i as int) =~= peer_names(self.peer_list@));
        let my_ad = PeerAdvertisement {
            end_init: false,
            node_name: self.node_name.clone(),
            node_id: self.node_id,
            timestamp: timestamp_now(),
            public_key: self.public_key,
            known_peers: known,
        };
        let message = Message::new(
            MessagePayload::PeerAdvertisement(my_ad),
            MessageKind::PeerInit,
            self.node_id,
            self.node_name.clone(),
        );
        let ghost before = net_stack.pending@;
        net_stack.send_init_channel(message);
        proof {
            if old(net_stack).init_open {
                assert(net_stack.pending@.take(before.len() as int) =~= before);
            }
        }
    }
}

} // verus!
