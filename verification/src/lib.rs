//! A small service toolkit: a compact base-32 identifier codec, a unique
//! identifier generator, a span registry with busy/idle accounting, a
//! structured JSON emitter, and a process-wide trace-id propagation table,
//! together with the pure decision logic of the surrounding HTTP tracing
//! middleware.

pub mod config;
pub mod http;
pub mod lark_api;
pub mod tracing;
pub mod util;
