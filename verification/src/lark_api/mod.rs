mod client;
mod error;
mod message;
pub mod event;

pub use client::{bearer_value, token_cache_fresh, token_expiry, CommonResp};
pub use error::Error;
pub use message::{text_content_spec, SendMessageRequest, SendMessageRequestBuilder,
    SendMessageResponse};
