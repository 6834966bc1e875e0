//! Inbound messaging events: the event types, and the classification of a
//! raw event's tags into a typed event.

use vstd::prelude::*;

verus! {

/// An event delivered by the messaging service.
#[derive(Debug)]
pub enum Event {
    MessageReceive(MessageReceiveEvent),
}

/// A received message: where it arrived and what it holds.
#[derive(Debug)]
pub struct MessageReceiveEvent {
    pub chat_id: String,
    pub chat_type: ChatType,
    pub message: Message,
}

/// The kind of chat a message arrived in.
#[derive(Debug)]
pub enum ChatType {
    P2P,
    Group,
}

/// A message's content; only plain text messages are understood.
#[derive(Debug)]
pub enum Message {
    Text(String),
}

impl Event {
    /// Classifies a raw event by its type tag: only received messages are
    /// understood, and they must classify as a message event.
    pub fn from_parts(
        event_type: &str,
        chat_id: String,
        chat_type: &str,
        message_type: &str,
        text: Option<String>,
    ) -> (r: Option<Event>)
        ensures
            match r {
                Some(e) => {
                    &&& event_type@ == "im.message.receive_v1"@
                    &&& (e matches Event::MessageReceive(m) && {
                        &&& m.chat_id@ == chat_id@
                        &&& ((chat_type@ == "p2p"@ && m.chat_type is P2P) || (chat_type@
                            == "group"@ && m.chat_type is Group))
                        &&& message_type@ == "text"@
                        &&& (m.message matches Message::Text(t) && text matches Some(x) && t@
                            == x@)
                    })
                },
                None => event_type@ != "im.message.receive_v1"@ || !(chat_type@ == "p2p"@
                    || chat_type@ == "group"@) || message_type@ != "text"@ || text is None,
            },
    {
        if !crate::util::text::str_eq(event_type, "im.message.receive_v1") {
            return None;
        }
        match MessageReceiveEvent::from_parts(chat_id, chat_type, message_type, text) {
            Some(e) => Some(Event::MessageReceive(e)),
            None => None,
        }
    }
}

/// The reply to a verification challenge: the challenge is echoed exactly
/// when the request carries the configured verification token.
pub fn challenge_reply(request_token: &str, verification_token: &str, challenge: String) -> (r:
    Option<String>)
    ensures
        match r {
            Some(c) => request_token@ == verification_token@ && c@ == challenge@,
            None => request_token@ != verification_token@,
        },
{
    if crate::util::text::str_eq(request_token, verification_token) {
        Some(challenge)
    } else {
        None
    }
}

impl MessageReceiveEvent {
    /// Classifies a raw event's tags: the chat type must be `p2p` or
    /// `group`, the message type must be `text`, and the text itself must
    /// have been extracted from the raw content; anything else is not a
    /// message event worth handling.
    pub fn from_parts(
        chat_id: String,
        chat_type: &str,
        message_type: &str,
        text: Option<String>,
    ) -> (r: Option<MessageReceiveEvent>)
        ensures
            match r {
                Some(e) => {
                    &&& e.chat_id@ == chat_id@
                    &&& ((chat_type@ == "p2p"@ && e.chat_type is P2P) || (chat_type@ == "group"@
                        && e.chat_type is Group))
                    &&& message_type@ == "text"@
                    &&& (e.message matches Message::Text(t) && text matches Some(x) && t@ == x@)
                },
                None => !(chat_type@ == "p2p"@ || chat_type@ == "group"@) || message_type@
                    != "text"@ || text is None,
            },
    {
        let ct: ChatType;
        if crate::util::text::str_eq(chat_type, "p2p") {
            ct = ChatType::P2P;
        } else if crate::util::text::str_eq(chat_type, "group") {
            ct = ChatType::Group;
        } else {
            return None;
        }
        if !crate::util::text::str_eq(message_type, "text") {
            return None;
        }
        match text {
            Some(t) => Some(
                MessageReceiveEvent { chat_id, chat_type: ct, message: Message::Text(t) },
            ),
            None => None,
        }
    }
}

} // verus!
