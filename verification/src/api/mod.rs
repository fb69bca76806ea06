//! The socket interface.

pub mod schema;
