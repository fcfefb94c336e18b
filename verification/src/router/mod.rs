//! From a request to the answer: paths, dates, ranges and the static handler.

pub mod date;
pub mod handler;
pub mod negotiate;
pub mod path;
pub mod range;
pub mod render;
pub mod target;
pub mod vhost;
