pub mod config;
pub mod id_gen;
pub mod radix32;
pub mod text;
