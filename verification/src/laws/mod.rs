//! What the operations of the server are for, stated over what goes in and what comes out.

pub mod addresses;
pub mod answers;
pub mod bodies;
pub mod calendar;
pub mod directives;
pub mod files;
pub mod forms;
pub mod h2_answers;
pub mod h2_frames;
pub mod h2_requests;
pub mod handling;
pub mod headers;
pub mod heads;
pub mod merging;
pub mod numbers;
pub mod operation;
pub mod pages;
pub mod paths;
pub mod replies;
pub mod routes;
pub mod rule_files;
pub mod rule_lines;
pub mod script_bodies;
pub mod scripts;
pub mod sessions;
pub mod settings;
pub mod texts;
pub mod tools;
pub mod upstreams;
pub mod variants;
pub mod wire;
