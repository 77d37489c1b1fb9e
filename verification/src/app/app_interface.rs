//! The interface between the application and a Streamlet node.
use vstd::prelude::*;
use crate::messages::{Message, MessageKind};
use crate::network::{NetworkStack, is_publish, is_subscribe};

verus! {

/// Sender id that the application uses.
pub const APP_SENDER_ID: u32 = 0;

/// Topic on which the application and the nodes talk.
pub const APP_NET_TOPIC: &'static str = "app";

/// Name under which the application sends.
pub const APP_NAME: &'static str = "app";

/// Exchanges messages between a Streamlet node and the application.
#[derive(Debug, Clone, Copy)]
pub struct AppInterface;

impl AppInterface {
    /// Subscribes the node's network stack to the application's topic.
    pub fn new(net_stack: &mut NetworkStack) -> (a: AppInterface)
        ensures
            final(net_stack).topic == old(net_stack).topic,
            final(net_stack).init_topic == old(net_stack).init_topic,
            final(net_stack).init_open == old(net_stack).init_open,
            final(net_stack).pending@ == old(net_stack).pending@.push(final(net_stack).pending@.last()),
            is_subscribe(final(net_stack).pending@.last(), APP_NET_TOPIC@),
    {
        net_stack.add_topic(APP_NET_TOPIC);
        AppInterface
    }

    /// Publishes `msg` on the application's topic.
    pub fn send_to_app(&self, net_stack: &mut NetworkStack, msg: Message)
        ensures
            final(net_stack).topic == old(net_stack).topic,
            final(net_stack).init_topic == old(net_stack).init_topic,
            final(net_stack).init_open == old(net_stack).init_open,
            final(net_stack).pending@ == old(net_stack).pending@.push(final(net_stack).pending@.last()),
            is_publish(final(net_stack).pending@.last(), APP_NET_TOPIC@, msg),
    {
        net_stack.broadcast_to_topic(APP_NET_TOPIC, msg);
    }

    /// Whether the message comes from the application: it is an `AppSend`
    /// message from sender id 0 named "app" and its data is acceptable.
    pub fn message_is_from_app(&self, message: &Message) -> (r: bool)
        ensures
            r == self.message_is_from_app_spec(*message),
    {
        let name_matches = crate::text::str_equal(message.sender_name.as_str(), APP_NAME);
        message.kind == MessageKind::AppSend && message.sender_id == APP_SENDER_ID && name_matches
            && self.data_is_valid(message)
    }

    /// The message comes from the application: see `message_is_from_app`.
    pub open spec fn message_is_from_app_spec(&self, message: Message) -> bool {
        message.kind == MessageKind::AppSend && message.sender_id == APP_SENDER_ID && message.sender_name@
            == APP_NAME@ && self.data_is_valid_spec(message)
    }

    /// Every message's data is acceptable.
    pub open spec fn data_is_valid_spec(&self, message: Message) -> bool {
        true
    }

    /// Whether the message's data is acceptable: every message's is.
    pub fn data_is_valid(&self, _message: &Message) -> (r: bool)
        ensures
            r == self.data_is_valid_spec(*_message),
    {
        true
    }
}

} // verus!
