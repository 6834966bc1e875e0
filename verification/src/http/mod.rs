pub mod client;
pub mod jwt;
pub mod server;
pub mod trace_util;
pub mod tracer;
