//! The messages of the client interface, as plain data.

pub mod errorpb;
pub mod kvpb;
pub mod metapb;
