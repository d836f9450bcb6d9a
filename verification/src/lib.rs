//! Micro-batching HTTP router for AWS Lambda.

pub mod batcher;
pub mod body;
pub mod buffered;
pub mod config;
pub mod event;
pub mod flush;
pub mod http_types;
pub mod job;
pub mod json;
pub mod lambda;
pub mod laws;
pub mod lines;
pub mod location;
pub mod outer_batch;
pub mod path;
pub mod plan;
pub mod request;
pub mod response;
pub mod route_table;
pub mod server;
pub mod spec;
pub mod startup;
pub mod str_map;
pub mod stream;
pub mod template;
pub mod text;
