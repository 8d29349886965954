//! A witness exchange and circuit execution library.
//!
//! A witness map assigns field elements to circuit variable indices. This
//! crate provides the canonical binary codec for witness maps, the text
//! input parser that turns an authored key/value document into a witness
//! map, the dispatcher that runs a serialized circuit against the external
//! constraint solver, and the request handler of the execution service.
pub mod codec;
pub mod dispatch;
pub mod errors;
pub mod input;
pub mod service;
pub mod witness;
