//! Symbolic registers over the data blocks of an S7 controller: the textual
//! address grammar, a catalog of named registers, and the codec between raw
//! big-endian bytes and typed register values.

pub mod address;
pub mod catalog;
pub mod codec;
pub mod errors;
pub mod types;
