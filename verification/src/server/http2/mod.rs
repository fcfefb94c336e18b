//! HTTP/2: frames, flow control, streams and the connection.

pub mod connection;
pub mod consistency;
pub mod exchange;
pub mod flags;
pub mod flow;
pub mod frame;
pub mod hpack;
pub mod huffman;
pub mod policy;
pub mod request;
pub mod schedule;
pub mod stream;
