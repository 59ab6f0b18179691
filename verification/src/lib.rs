//! Common building blocks of the node: the query engine that filters stored
//! records, and the compact transaction format with its byte-level codec.

pub mod api;
pub mod crypto;
pub mod serializer;
pub mod transaction;
