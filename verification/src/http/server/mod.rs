pub mod jwt;
