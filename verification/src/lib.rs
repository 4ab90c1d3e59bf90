//! An in-memory CRUD service for person records: a store that keeps the
//! records under a uniqueness invariant, and a router that maps HTTP-shaped
//! requests (method, path, body) onto store operations and response bodies.

pub mod json;
pub mod laws;
pub mod num;
pub mod router;
pub mod store;
