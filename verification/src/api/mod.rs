//! Query engine over the recursive document model.

pub mod codec;
pub mod data;
pub mod pattern;
pub mod query;
pub mod text;
pub mod wire;

pub use data::{DataElement, DataType, DataValue};
