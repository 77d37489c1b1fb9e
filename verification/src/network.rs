//! The node's view of its broadcast network: the topic it broadcasts on, an
//! initialization channel that can be opened and closed, and the queue of
//! network operations that the transport is to carry out, in order.
use vstd::prelude::*;
use crate::messages::Message;
use crate::wire::message_bytes;

verus! {

/// Largest serialized message, in bytes, that may be broadcast on the main topic.
pub const MAX_MSG_SIZE: usize = 1974;

/// A network operation for the transport to carry out.
#[derive(Debug)]
pub enum NetAction {
    /// Publish a message on a topic.
    Publish(String, Message),
    /// Subscribe to a topic.
    Subscribe(String),
    /// Unsubscribe from a topic.
    Unsubscribe(String),
}

/// The broadcast topic, the initialization topic and whether the
/// initialization channel is open, with the operations not yet carried out.
#[derive(Debug)]
pub struct NetworkStack {
    pub topic: String,
    pub init_topic: String,
    pub init_open: bool,
    pub pending: Vec<NetAction>,
}

/// The action publishes `message` on a topic named `topic`.
pub open spec fn is_publish(a: NetAction, topic: Seq<char>, message: Message) -> bool {
    match a {
        NetAction::Publish(t, m) => t@ == topic && m == message,
        _ => false,
    }
}

/// The action subscribes to a topic named `topic`.
pub open spec fn is_subscribe(a: NetAction, topic: Seq<char>) -> bool {
    match a {
        NetAction::Subscribe(t) => t@ == topic,
        _ => false,
    }
}

/// The action unsubscribes from a topic named `topic`.
pub open spec fn is_unsubscribe(a: NetAction, topic: Seq<char>) -> bool {
    match a {
        NetAction::Unsubscribe(t) => t@ == topic,
        _ => false,
    }
}

impl NetworkStack {
    /// A stack that broadcasts on `topic_name` and subscribes to it; the
    /// initialization channel, named "init", starts closed.
    pub fn new(topic_name: &str) -> (n: NetworkStack)
        ensures
            n.topic@ == topic_name@,
            n.init_topic@ == "init"@,
            !n.init_open,
            n.pending@.len() == 1,
            is_subscribe(n.pending@[0], topic_name@),
    {
        let topic = topic_name.to_owned();
        let mut pending: Vec<NetAction> = Vec::new();
        pending.push(NetAction::Subscribe(topic_name.to_owned()));
        NetworkStack { topic, init_topic: "init".to_owned(), init_open: false, pending }
    }

    /// Publishes `message` on the broadcast topic. Its wire form (see
    /// `message_bytes`) must fit in `MAX_MSG_SIZE` bytes.
    pub fn broadcast_message(&mut self, message: Message)
        requires
            message_bytes(message).len() <= MAX_MSG_SIZE,
        ensures
            final(self).topic == old(self).topic,
            final(self).init_topic == old(self).init_topic,
            final(self).init_open == old(self).init_open,
            final(self).pending@.len() == old(self).pending@.len() + 1,
            final(self).pending@.take(old(self).pending@.len() as int) == old(self).pending@,
            is_publish(final(self).pending@.last(), old(self).topic@, message),
    {
        let t = self.topic.clone();
        self.pending.push(NetAction::Publish(t, message));
        assert(self.pending@.take(old(self).pending@.len() as int) =~= old(self).pending@);
    }

    /// Publishes `message` on `topic`.
    pub fn broadcast_to_topic(&mut self, topic: &str, message: Message)
        ensures
            final(self).topic == old(self).topic,
            final(self).init_topic == old(self).init_topic,
            final(self).init_open == old(self).init_open,
            final(self).pending@ == old(self).pending@.push(final(self).pending@.last()),
            is_publish(final(self).pending@.last(), topic@, message),
    {
        self.pending.push(NetAction::Publish(topic.to_owned(), message));
    }

    /// Subscribes to `topic`.
    pub fn add_topic(&mut self, topic: &str)
        ensures
            final(self).topic == old(self).topic,
            final(self).init_topic == old(self).init_topic,
            final(self).init_open == old(self).init_open,
            final(self).pending@ == old(self).pending@.push(final(self).pending@.last()),
            is_subscribe(final(self).pending@.last(), topic@),
    {
        self.pending.push(NetAction::Subscribe(topic.to_owned()));
    }

    /// Subscribes to the initialization topic and marks the channel open.
    pub fn open_init_channel(&mut self)
        ensures
            final(self).topic == old(self).topic,
            final(self).init_topic == old(self).init_topic,
            final(self).init_open,
            final(self).pending@ == old(self).pending@.push(final(self).pending@.last()),
            is_subscribe(final(self).pending@.last(), old(self).init_topic@),
    {
        let t = self.init_topic.clone();
        self.pending.push(NetAction::Subscribe(t));
        self.init_open = true;
    }

    /// Unsubscribes from the initialization topic and marks the channel closed.
    pub fn close_init_channel(&mut self)
        ensures
            final(self).topic == old(self).topic,
            final(self).init_topic == old(self).init_topic,
            !final(self).init_open,
            final(self).pending@ == old(self).pending@.push(final(self).pending@.last()),
            is_unsubscribe(final(self).pending@.last(), old(self).init_topic@),
    {
        let t = self.init_topic.clone();
        self.pending.push(NetAction::Unsubscribe(t));
        self.init_open = false;
    }

    /// Whether the initialization channel is open.
    pub fn init_channel_open(&self) -> (open: bool)
        ensures
            open == self.init_open,
    {
        self.init_open
    }

    /// Publishes `message` on the initialization topic if the channel is open;
    /// drops it otherwise.
    pub fn send_init_channel(&mut self, message: Message)
        ensures
            final(self).topic == old(self).topic,
            final(self).init_topic == old(self).init_topic,
            final(self).init_open == old(self).init_open,
            !old(self).init_open ==> final(self).pending@ == old(self).pending@,
            old(self).init_open ==> final(self).pending@ == old(self).pending@.push(
                final(self).pending@.last(),
            ),
            old(self).init_open ==> is_publish(final(self).pending@.last(), old(self).init_topic@, message),
    {
        if !self.init_open {
            return;
        }
        let t = self.init_topic.clone();
        self.pending.push(NetAction::Publish(t, message));
    }

    /// Hands the queued operations to the transport and empties the queue.
    pub fn take_pending(&mut self) -> (actions: Vec<NetAction>)
        ensures
            actions@ == old(self).pending@,
            final(self).pending@.len() == 0,
            final(self).topic == old(self).topic,
            final(self).init_topic == old(self).init_topic,
            final(self).init_open == old(self).init_open,
    {
        let mut out: Vec<NetAction> = Vec::new();
        std::mem::swap(&mut out, &mut self.pending);
        out
    }
}

} // verus!
