//! Building requests for the messaging service: the send-message request
//! with its builder, and the response type.

use super::client::CommonResp;
use super::error::Error;
use crate::util::text::{chars_vec, json_str, push_json_str, string_from_chars};
use vstd::prelude::*;

verus! {

/// A request to send one message to one receiver.
pub struct SendMessageRequest {
    pub receive_id_type: String,
    pub receive_id: String,
    pub msg_type: String,
    pub content: String,
}

impl SendMessageRequest {
    /// Starts building a request.
    pub fn builder() -> (b: SendMessageRequestBuilder)
        ensures
            b.receive_id_type is None,
            b.receive_id is None,
            b.msg_type is None,
            b.content is None,
    {
        SendMessageRequestBuilder {
            receive_id_type: None,
            receive_id: None,
            msg_type: None,
            content: None,
        }
    }
}

/// Collects the parts of a send-message request.
pub struct SendMessageRequestBuilder {
    pub receive_id_type: Option<String>,
    pub receive_id: Option<String>,
    pub msg_type: Option<String>,
    pub content: Option<String>,
}

/// The message content rendered for a plain text message: a JSON object
/// holding the text under the key `text`.
pub open spec fn text_content_spec(text: Seq<char>) -> Seq<char> {
    seq!['{'] + json_str("text"@) + seq![':'] + json_str(text) + seq!['}']
}

impl SendMessageRequestBuilder {
    /// Addresses the message to a chat.
    pub fn receiver_chat_id(self, chat_id: String) -> (b: SendMessageRequestBuilder)
        ensures
            b.receive_id_type matches Some(t) && t@ == "chat_id"@,
            b.receive_id matches Some(r) && r@ == chat_id@,
            b.msg_type == self.msg_type,
            b.content == self.content,
    {
        SendMessageRequestBuilder {
            receive_id_type: Some(String::from_str("chat_id")),
            receive_id: Some(chat_id),
            ..self
        }
    }

    /// Addresses the message to a user by mail address.
    pub fn receiver_email(self, email: String) -> (b: SendMessageRequestBuilder)
        ensures
            b.receive_id_type matches Some(t) && t@ == "email"@,
            b.receive_id matches Some(r) && r@ == email@,
            b.msg_type == self.msg_type,
            b.content == self.content,
    {
        SendMessageRequestBuilder {
            receive_id_type: Some(String::from_str("email")),
            receive_id: Some(email),
            ..self
        }
    }

    /// Makes the message a plain text message with the given text.
    pub fn text(self, text: &str) -> (b: SendMessageRequestBuilder)
        ensures
            b.msg_type matches Some(t) && t@ == "text"@,
            b.content matches Some(c) && c@ == text_content_spec(text@),
            b.receive_id_type == self.receive_id_type,
            b.receive_id == self.receive_id,
    {
        let mut buf: Vec<char> = Vec::new();
        buf.push('{');
        let key = chars_vec("text");
        push_json_str(&mut buf, &key);
        buf.push(':');
        let val = chars_vec(text);
        push_json_str(&mut buf, &val);
        buf.push('}');
        proof {
            assert(buf@ =~= text_content_spec(text@));
        }
        SendMessageRequestBuilder {
            msg_type: Some(String::from_str("text")),
            content: Some(string_from_chars(&buf)),
            ..self
        }
    }

    /// The finished request; a missing part is an error naming the first
    /// missing part, in the order the request declares them.
    pub fn build(self) -> (r: Result<SendMessageRequest, Error>)
        ensures
            match r {
                Ok(req) => {
                    &&& self.receive_id_type == Some(req.receive_id_type)
                    &&& self.receive_id == Some(req.receive_id)
                    &&& self.msg_type == Some(req.msg_type)
                    &&& self.content == Some(req.content)
                },
                Err(e) => {
                    &&& (self.receive_id_type is None || self.receive_id is None
                        || self.msg_type is None || self.content is None)
                    &&& (e matches Error::MissingRequestParam(p) && p@ == (
                    if self.receive_id_type is None {
                        "receive_id_type"@
                    } else if self.receive_id is None {
                        "receive_id"@
                    } else if self.msg_type is None {
                        "msg_type"@
                    } else {
                        "content"@
                    }))
                },
            },
    {
        let receive_id_type = match self.receive_id_type {
            Some(v) => v,
            None => {
                return Err(
                    Error::MissingRequestParam(String::from_str("receive_id_type")),
                );
            },
        };
        let receive_id = match self.receive_id {
            Some(v) => v,
            None => {
                return Err(Error::MissingRequestParam(String::from_str("receive_id")));
            },
        };
        let msg_type = match self.msg_type {
            Some(v) => v,
            None => {
                return Err(Error::MissingRequestParam(String::from_str("msg_type")));
            },
        };
        let content = match self.content {
            Some(v) => v,
            None => {
                return Err(Error::MissingRequestParam(String::from_str("content")));
            },
        };
        Ok(SendMessageRequest { receive_id_type, receive_id, msg_type, content })
    }
}

/// The service's answer to a send-message request.
pub struct SendMessageResponse {
    pub common_resp: CommonResp,
}

} // verus!
