//! What the operations are for, stated over their inputs and results.
pub mod batching;
pub mod bodies;
pub mod documents;
pub mod events;
pub mod framing;
pub mod headers;
pub mod invocations;
pub mod received;
pub mod responses;
pub mod routing;
pub mod texts;
