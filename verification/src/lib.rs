//! An in-memory todo list service: the todo records, the store that keeps
//! them in insertion order, and the request handlers that turn one decoded
//! request into one store operation and a response envelope.

pub mod handlers;
pub mod ident;
pub mod laws;
pub mod model;
pub mod store;
