//! VeySRS: the rules, parsers and protocol state machines of a small web server.

pub mod bytes;
pub mod cli;
pub mod config;
pub mod laws;
pub mod router;
pub mod server;
pub mod text;
